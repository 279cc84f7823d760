//! Tuples: the representations of the components, one after the other.
use vstd::prelude::*;

use crate::error::{ReadError, WriteError};
use crate::protocol::{lemma_skip_prefix, lemma_skip_skip, lemma_take_split, lemma_truncated_step, Canonical, Protocol};
use crate::stream::Reader;

verus! {

/// A tuple of 1 component is represented by the representations of its components, in order.
impl<A: Protocol> Protocol for (A,) {
    type Model = (A::Model,);

    open spec fn model(&self) -> (A::Model,) {
        (self.0.model(),)
    }

    open spec fn wf_model(m: (A::Model,)) -> bool {
        A::wf_model(m.0)
    }

    open spec fn spec_encode(m: (A::Model,)) -> Seq<u8> {
        A::spec_encode(m.0)
    }

    open spec fn spec_decode(input: Seq<u8>) -> Result<((A::Model,), nat), ReadError> {
        match A::spec_decode(input) {
            Err(e) => Err(e),
            Ok((x0, n0)) => Ok(((x0,), n0)),
        }
    }

    open spec fn spec_error_consumed(input: Seq<u8>) -> nat {
        A::spec_error_consumed(input)
    }

    proof fn lemma_encode_decode(m: (A::Model,), rest: Seq<u8>) {
        let e = Self::spec_encode(m);
        let t0 = rest;
        assert(e + rest =~= A::spec_encode(m.0) + t0);
        A::lemma_encode_decode(m.0, t0);
    }

    proof fn lemma_truncated(m: (A::Model,), k: nat) {
        if k < Self::spec_encode(m).len() {
            A::lemma_truncated(m.0, k);
        }
    }

    proof fn lemma_decode_wf(input: Seq<u8>) {
        A::lemma_decode_wf(input);
    }

    fn read_sync(stream: &mut Reader) -> (r: Result<(A,), ReadError>) {
        proof {
            A::lemma_decode_wf(stream@);
        }
        let v0 = match A::read_sync(stream) {
            Ok(v) => v,
            Err(e) => return Err(e),
        };
        Ok((v0,))
    }

    fn write_sync(&self, sink: &mut Vec<u8>) -> (r: Result<(), WriteError>) {
        let _ = self.0.write_sync(sink);
        assert(final(sink)@ =~= old(sink)@ + Self::spec_encode(self.model()));
        Ok(())
    }
}

impl<A: Canonical> Canonical for (A,) {
    proof fn lemma_decode_encode(input: Seq<u8>) {
        A::lemma_decode_wf(input);
        A::lemma_decode_encode(input);
    }
}

/// A tuple of 2 components is represented by the representations of its components, in order.
impl<A: Protocol, B: Protocol> Protocol for (A, B) {
    type Model = (A::Model, B::Model);

    open spec fn model(&self) -> (A::Model, B::Model) {
        (self.0.model(), self.1.model())
    }

    open spec fn wf_model(m: (A::Model, B::Model)) -> bool {
        A::wf_model(m.0) && B::wf_model(m.1)
    }

    open spec fn spec_encode(m: (A::Model, B::Model)) -> Seq<u8> {
        A::spec_encode(m.0) + B::spec_encode(m.1)
    }

    open spec fn spec_decode(input: Seq<u8>) -> Result<((A::Model, B::Model), nat), ReadError> {
        match A::spec_decode(input) {
            Err(e) => Err(e),
            Ok((x0, n0)) => {
                let s1 = input.skip(n0 as int);
                match B::spec_decode(s1) {
                    Err(e) => Err(e),
                    Ok((x1, n1)) => Ok(((x0, x1), n0 + n1)),
                }
            },
        }
    }

    open spec fn spec_error_consumed(input: Seq<u8>) -> nat {
        match A::spec_decode(input) {
            Err(_) => A::spec_error_consumed(input),
            Ok((x0, n0)) => {
                let s1 = input.skip(n0 as int);
                n0 + B::spec_error_consumed(s1)
            },
        }
    }

    proof fn lemma_encode_decode(m: (A::Model, B::Model), rest: Seq<u8>) {
        let e = Self::spec_encode(m);
        let t0 = B::spec_encode(m.1) + rest;
        let t1 = rest;
        assert(e + rest =~= A::spec_encode(m.0) + t0);
        A::lemma_encode_decode(m.0, t0);
        lemma_skip_prefix(A::spec_encode(m.0), t0);
        B::lemma_encode_decode(m.1, t1);
    }

    proof fn lemma_truncated(m: (A::Model, B::Model), k: nat) {
        if k < Self::spec_encode(m).len() {
            lemma_truncated_step::<A>(m.0, B::spec_encode(m.1), k);
            if k >= A::spec_encode(m.0).len() {
                let k1 = (k - A::spec_encode(m.0).len()) as nat;
                B::lemma_truncated(m.1, k1);
            }
        }
    }

    proof fn lemma_decode_wf(input: Seq<u8>) {
        A::lemma_decode_wf(input);
        if let Ok((x0, n0)) = A::spec_decode(input) {
            let s1 = input.skip(n0 as int);
            B::lemma_decode_wf(s1);
        }
    }

    fn read_sync(stream: &mut Reader) -> (r: Result<(A, B), ReadError>) {
        proof {
            A::lemma_decode_wf(stream@);
        }
        let ghost b0 = stream@;
        let v0 = match A::read_sync(stream) {
            Ok(v) => v,
            Err(e) => return Err(e),
        };
        proof {
            B::lemma_decode_wf(stream@);
        }
        let ghost b1 = stream@;
        let v1 = match B::read_sync(stream) {
            Ok(v) => v,
            Err(e) => {
                proof {
                    let n0 = (b0.len() - b1.len()) as nat;
                    let c1 = B::spec_error_consumed(b1);
                    lemma_skip_skip(b0, n0, c1);
                }
                return Err(e);
            },
        };
        proof {
            let n0 = (b0.len() - b1.len()) as nat;
            let n1 = (b1.len() - stream@.len()) as nat;
            lemma_skip_skip(b0, n0, n1);
        }
        Ok((v0, v1))
    }

    fn write_sync(&self, sink: &mut Vec<u8>) -> (r: Result<(), WriteError>) {
        let _ = self.0.write_sync(sink);
        let _ = self.1.write_sync(sink);
        assert(final(sink)@ =~= old(sink)@ + Self::spec_encode(self.model()));
        Ok(())
    }
}

impl<A: Canonical, B: Canonical> Canonical for (A, B) {
    proof fn lemma_decode_encode(input: Seq<u8>) {
        A::lemma_decode_wf(input);
        A::lemma_decode_encode(input);
        if let Ok((x0, n0)) = A::spec_decode(input) {
            let s1 = input.skip(n0 as int);
            B::lemma_decode_wf(s1);
            B::lemma_decode_encode(s1);
            if let Ok((x1, n1)) = B::spec_decode(s1) {
                lemma_take_split(input, n0, n1);
            }
        }
    }
}

/// A tuple of 3 components is represented by the representations of its components, in order.
impl<A: Protocol, B: Protocol, C: Protocol> Protocol for (A, B, C) {
    type Model = (A::Model, B::Model, C::Model);

    open spec fn model(&self) -> (A::Model, B::Model, C::Model) {
        (self.0.model(), self.1.model(), self.2.model())
    }

    open spec fn wf_model(m: (A::Model, B::Model, C::Model)) -> bool {
        A::wf_model(m.0) && B::wf_model(m.1) && C::wf_model(m.2)
    }

    open spec fn spec_encode(m: (A::Model, B::Model, C::Model)) -> Seq<u8> {
        A::spec_encode(m.0) + (B::spec_encode(m.1) + C::spec_encode(m.2))
    }

    open spec fn spec_decode(input: Seq<u8>) -> Result<((A::Model, B::Model, C::Model), nat), ReadError> {
        match A::spec_decode(input) {
            Err(e) => Err(e),
            Ok((x0, n0)) => {
                let s1 = input.skip(n0 as int);
                match B::spec_decode(s1) {
                    Err(e) => Err(e),
                    Ok((x1, n1)) => {
                        let s2 = s1.skip(n1 as int);
                        match C::spec_decode(s2) {
                            Err(e) => Err(e),
                            Ok((x2, n2)) => Ok(((x0, x1, x2), n0 + (n1 + n2))),
                        }
                    },
                }
            },
        }
    }

    open spec fn spec_error_consumed(input: Seq<u8>) -> nat {
        match A::spec_decode(input) {
            Err(_) => A::spec_error_consumed(input),
            Ok((x0, n0)) => {
                let s1 = input.skip(n0 as int);
                n0 + match B::spec_decode(s1) {
                    Err(_) => B::spec_error_consumed(s1),
                    Ok((x1, n1)) => {
                        let s2 = s1.skip(n1 as int);
                        n1 + C::spec_error_consumed(s2)
                    },
                }
            },
        }
    }

    proof fn lemma_encode_decode(m: (A::Model, B::Model, C::Model), rest: Seq<u8>) {
        let e = Self::spec_encode(m);
        let t0 = B::spec_encode(m.1) + (C::spec_encode(m.2) + rest);
        let t1 = C::spec_encode(m.2) + rest;
        let t2 = rest;
        assert(e + rest =~= A::spec_encode(m.0) + t0);
        A::lemma_encode_decode(m.0, t0);
        lemma_skip_prefix(A::spec_encode(m.0), t0);
        B::lemma_encode_decode(m.1, t1);
        lemma_skip_prefix(B::spec_encode(m.1), t1);
        C::lemma_encode_decode(m.2, t2);
    }

    proof fn lemma_truncated(m: (A::Model, B::Model, C::Model), k: nat) {
        if k < Self::spec_encode(m).len() {
            lemma_truncated_step::<A>(m.0, B::spec_encode(m.1) + C::spec_encode(m.2), k);
            if k >= A::spec_encode(m.0).len() {
                let k1 = (k - A::spec_encode(m.0).len()) as nat;
                lemma_truncated_step::<B>(m.1, C::spec_encode(m.2), k1);
                if k1 >= B::spec_encode(m.1).len() {
                    let k2 = (k1 - B::spec_encode(m.1).len()) as nat;
                    C::lemma_truncated(m.2, k2);
                }
            }
        }
    }

    proof fn lemma_decode_wf(input: Seq<u8>) {
        A::lemma_decode_wf(input);
        if let Ok((x0, n0)) = A::spec_decode(input) {
            let s1 = input.skip(n0 as int);
            B::lemma_decode_wf(s1);
            if let Ok((x1, n1)) = B::spec_decode(s1) {
                let s2 = s1.skip(n1 as int);
                C::lemma_decode_wf(s2);
            }
        }
    }

    fn read_sync(stream: &mut Reader) -> (r: Result<(A, B, C), ReadError>) {
        proof {
            A::lemma_decode_wf(stream@);
        }
        let ghost b0 = stream@;
        let v0 = match A::read_sync(stream) {
            Ok(v) => v,
            Err(e) => return Err(e),
        };
        proof {
            B::lemma_decode_wf(stream@);
        }
        let ghost b1 = stream@;
        let v1 = match B::read_sync(stream) {
            Ok(v) => v,
            Err(e) => {
                proof {
                    let n0 = (b0.len() - b1.len()) as nat;
                    let c1 = B::spec_error_consumed(b1);
                    lemma_skip_skip(b0, n0, c1);
                }
                return Err(e);
            },
        };
        proof {
            C::lemma_decode_wf(stream@);
        }
        let ghost b2 = stream@;
        let v2 = match C::read_sync(stream) {
            Ok(v) => v,
            Err(e) => {
                proof {
                    let n0 = (b0.len() - b1.len()) as nat;
                    let n1 = (b1.len() - b2.len()) as nat;
                    let c2 = C::spec_error_consumed(b2);
                    lemma_skip_skip(b1, n1, c2);
                    lemma_skip_skip(b0, n0, n1 + c2);
                }
                return Err(e);
            },
        };
        proof {
            let n1 = (b1.len() - b2.len()) as nat;
            let n0 = (b0.len() - b1.len()) as nat;
            let n2 = (b2.len() - stream@.len()) as nat;
            lemma_skip_skip(b1, n1, n2);
            lemma_skip_skip(b0, n0, n1 + n2);
        }
        Ok((v0, v1, v2))
    }

    fn write_sync(&self, sink: &mut Vec<u8>) -> (r: Result<(), WriteError>) {
        let _ = self.0.write_sync(sink);
        let _ = self.1.write_sync(sink);
        let _ = self.2.write_sync(sink);
        assert(final(sink)@ =~= old(sink)@ + Self::spec_encode(self.model()));
        Ok(())
    }
}

impl<A: Canonical, B: Canonical, C: Canonical> Canonical for (A, B, C) {
    proof fn lemma_decode_encode(input: Seq<u8>) {
        A::lemma_decode_wf(input);
        A::lemma_decode_encode(input);
        if let Ok((x0, n0)) = A::spec_decode(input) {
            let s1 = input.skip(n0 as int);
            B::lemma_decode_wf(s1);
            B::lemma_decode_encode(s1);
            if let Ok((x1, n1)) = B::spec_decode(s1) {
                let s2 = s1.skip(n1 as int);
                C::lemma_decode_wf(s2);
                C::lemma_decode_encode(s2);
                if let Ok((x2, n2)) = C::spec_decode(s2) {
                    lemma_take_split(s1, n1, n2);
                    lemma_take_split(input, n0, n1 + n2);
                }
            }
        }
    }
}

/// A tuple of 4 components is represented by the representations of its components, in order.
impl<A: Protocol, B: Protocol, C: Protocol, D: Protocol> Protocol for (A, B, C, D) {
    type Model = (A::Model, B::Model, C::Model, D::Model);

    open spec fn model(&self) -> (A::Model, B::Model, C::Model, D::Model) {
        (self.0.model(), self.1.model(), self.2.model(), self.3.model())
    }

    open spec fn wf_model(m: (A::Model, B::Model, C::Model, D::Model)) -> bool {
        A::wf_model(m.0) && B::wf_model(m.1) && C::wf_model(m.2) && D::wf_model(m.3)
    }

    open spec fn spec_encode(m: (A::Model, B::Model, C::Model, D::Model)) -> Seq<u8> {
        A::spec_encode(m.0) + (B::spec_encode(m.1) + (C::spec_encode(m.2) + D::spec_encode(m.3)))
    }

    open spec fn spec_decode(input: Seq<u8>) -> Result<((A::Model, B::Model, C::Model, D::Model), nat), ReadError> {
        match A::spec_decode(input) {
            Err(e) => Err(e),
            Ok((x0, n0)) => {
                let s1 = input.skip(n0 as int);
                match B::spec_decode(s1) {
                    Err(e) => Err(e),
                    Ok((x1, n1)) => {
                        let s2 = s1.skip(n1 as int);
                        match C::spec_decode(s2) {
                            Err(e) => Err(e),
                            Ok((x2, n2)) => {
                                let s3 = s2.skip(n2 as int);
                                match D::spec_decode(s3) {
                                    Err(e) => Err(e),
                                    Ok((x3, n3)) => Ok(((x0, x1, x2, x3), n0 + (n1 + (n2 + n3)))),
                                }
                            },
                        }
                    },
                }
            },
        }
    }

    open spec fn spec_error_consumed(input: Seq<u8>) -> nat {
        match A::spec_decode(input) {
            Err(_) => A::spec_error_consumed(input),
            Ok((x0, n0)) => {
                let s1 = input.skip(n0 as int);
                n0 + match B::spec_decode(s1) {
                    Err(_) => B::spec_error_consumed(s1),
                    Ok((x1, n1)) => {
                        let s2 = s1.skip(n1 as int);
                        n1 + match C::spec_decode(s2) {
                            Err(_) => C::spec_error_consumed(s2),
                            Ok((x2, n2)) => {
                                let s3 = s2.skip(n2 as int);
                                n2 + D::spec_error_consumed(s3)
                            },
                        }
                    },
                }
            },
        }
    }

    proof fn lemma_encode_decode(m: (A::Model, B::Model, C::Model, D::Model), rest: Seq<u8>) {
        let e = Self::spec_encode(m);
        let t0 = B::spec_encode(m.1) + (C::spec_encode(m.2) + (D::spec_encode(m.3) + rest));
        let t1 = C::spec_encode(m.2) + (D::spec_encode(m.3) + rest);
        let t2 = D::spec_encode(m.3) + rest;
        let t3 = rest;
        assert(e + rest =~= A::spec_encode(m.0) + t0);
        A::lemma_encode_decode(m.0, t0);
        lemma_skip_prefix(A::spec_encode(m.0), t0);
        B::lemma_encode_decode(m.1, t1);
        lemma_skip_prefix(B::spec_encode(m.1), t1);
        C::lemma_encode_decode(m.2, t2);
        lemma_skip_prefix(C::spec_encode(m.2), t2);
        D::lemma_encode_decode(m.3, t3);
    }

    proof fn lemma_truncated(m: (A::Model, B::Model, C::Model, D::Model), k: nat) {
        if k < Self::spec_encode(m).len() {
            lemma_truncated_step::<A>(m.0, B::spec_encode(m.1) + (C::spec_encode(m.2) + D::spec_encode(m.3)), k);
            if k >= A::spec_encode(m.0).len() {
                let k1 = (k - A::spec_encode(m.0).len()) as nat;
                lemma_truncated_step::<B>(m.1, C::spec_encode(m.2) + D::spec_encode(m.3), k1);
                if k1 >= B::spec_encode(m.1).len() {
                    let k2 = (k1 - B::spec_encode(m.1).len()) as nat;
                    lemma_truncated_step::<C>(m.2, D::spec_encode(m.3), k2);
                    if k2 >= C::spec_encode(m.2).len() {
                        let k3 = (k2 - C::spec_encode(m.2).len()) as nat;
                        D::lemma_truncated(m.3, k3);
                    }
                }
            }
        }
    }

    proof fn lemma_decode_wf(input: Seq<u8>) {
        A::lemma_decode_wf(input);
        if let Ok((x0, n0)) = A::spec_decode(input) {
            let s1 = input.skip(n0 as int);
            B::lemma_decode_wf(s1);
            if let Ok((x1, n1)) = B::spec_decode(s1) {
                let s2 = s1.skip(n1 as int);
                C::lemma_decode_wf(s2);
                if let Ok((x2, n2)) = C::spec_decode(s2) {
                    let s3 = s2.skip(n2 as int);
                    D::lemma_decode_wf(s3);
                }
            }
        }
    }

    fn read_sync(stream: &mut Reader) -> (r: Result<(A, B, C, D), ReadError>) {
        proof {
            A::lemma_decode_wf(stream@);
        }
        let ghost b0 = stream@;
        let v0 = match A::read_sync(stream) {
            Ok(v) => v,
            Err(e) => return Err(e),
        };
        proof {
            B::lemma_decode_wf(stream@);
        }
        let ghost b1 = stream@;
        let v1 = match B::read_sync(stream) {
            Ok(v) => v,
            Err(e) => {
                proof {
                    let n0 = (b0.len() - b1.len()) as nat;
                    let c1 = B::spec_error_consumed(b1);
                    lemma_skip_skip(b0, n0, c1);
                }
                return Err(e);
            },
        };
        proof {
            C::lemma_decode_wf(stream@);
        }
        let ghost b2 = stream@;
        let v2 = match C::read_sync(stream) {
            Ok(v) => v,
            Err(e) => {
                proof {
                    let n0 = (b0.len() - b1.len()) as nat;
                    let n1 = (b1.len() - b2.len()) as nat;
                    let c2 = C::spec_error_consumed(b2);
                    lemma_skip_skip(b1, n1, c2);
                    lemma_skip_skip(b0, n0, n1 + c2);
                }
                return Err(e);
            },
        };
        proof {
            D::lemma_decode_wf(stream@);
        }
        let ghost b3 = stream@;
        let v3 = match D::read_sync(stream) {
            Ok(v) => v,
            Err(e) => {
                proof {
                    let n0 = (b0.len() - b1.len()) as nat;
                    let n1 = (b1.len() - b2.len()) as nat;
                    let n2 = (b2.len() - b3.len()) as nat;
                    let c3 = D::spec_error_consumed(b3);
                    lemma_skip_skip(b2, n2, c3);
                    lemma_skip_skip(b1, n1, n2 + c3);
                    lemma_skip_skip(b0, n0, n1 + (n2 + c3));
                }
                return Err(e);
            },
        };
        proof {
            let n2 = (b2.len() - b3.len()) as nat;
            let n1 = (b1.len() - b2.len()) as nat;
            let n0 = (b0.len() - b1.len()) as nat;
            let n3 = (b3.len() - stream@.len()) as nat;
            lemma_skip_skip(b2, n2, n3);
            lemma_skip_skip(b1, n1, n2 + n3);
            lemma_skip_skip(b0, n0, n1 + (n2 + n3));
        }
        Ok((v0, v1, v2, v3))
    }

    fn write_sync(&self, sink: &mut Vec<u8>) -> (r: Result<(), WriteError>) {
        let _ = self.0.write_sync(sink);
        let _ = self.1.write_sync(sink);
        let _ = self.2.write_sync(sink);
        let _ = self.3.write_sync(sink);
        assert(final(sink)@ =~= old(sink)@ + Self::spec_encode(self.model()));
        Ok(())
    }
}

impl<A: Canonical, B: Canonical, C: Canonical, D: Canonical> Canonical for (A, B, C, D) {
    proof fn lemma_decode_encode(input: Seq<u8>) {
        A::lemma_decode_wf(input);
        A::lemma_decode_encode(input);
        if let Ok((x0, n0)) = A::spec_decode(input) {
            let s1 = input.skip(n0 as int);
            B::lemma_decode_wf(s1);
            B::lemma_decode_encode(s1);
            if let Ok((x1, n1)) = B::spec_decode(s1) {
                let s2 = s1.skip(n1 as int);
                C::lemma_decode_wf(s2);
                C::lemma_decode_encode(s2);
                if let Ok((x2, n2)) = C::spec_decode(s2) {
                    let s3 = s2.skip(n2 as int);
                    D::lemma_decode_wf(s3);
                    D::lemma_decode_encode(s3);
                    if let Ok((x3, n3)) = D::spec_decode(s3) {
                        lemma_take_split(s2, n2, n3);
                        lemma_take_split(s1, n1, n2 + n3);
                        lemma_take_split(input, n0, n1 + (n2 + n3));
                    }
                }
            }
        }
    }
}

/// A tuple of 5 components is represented by the representations of its components, in order.
impl<A: Protocol, B: Protocol, C: Protocol, D: Protocol, E: Protocol> Protocol for (A, B, C, D, E) {
    type Model = (A::Model, B::Model, C::Model, D::Model, E::Model);

    open spec fn model(&self) -> (A::Model, B::Model, C::Model, D::Model, E::Model) {
        (self.0.model(), self.1.model(), self.2.model(), self.3.model(), self.4.model())
    }

    open spec fn wf_model(m: (A::Model, B::Model, C::Model, D::Model, E::Model)) -> bool {
        A::wf_model(m.0) && B::wf_model(m.1) && C::wf_model(m.2) && D::wf_model(m.3) && E::wf_model(m.4)
    }

    open spec fn spec_encode(m: (A::Model, B::Model, C::Model, D::Model, E::Model)) -> Seq<u8> {
        A::spec_encode(m.0) + (B::spec_encode(m.1) + (C::spec_encode(m.2) + (D::spec_encode(m.3) + E::spec_encode(m.4))))
    }

    open spec fn spec_decode(input: Seq<u8>) -> Result<((A::Model, B::Model, C::Model, D::Model, E::Model), nat), ReadError> {
        match A::spec_decode(input) {
            Err(e) => Err(e),
            Ok((x0, n0)) => {
                let s1 = input.skip(n0 as int);
                match B::spec_decode(s1) {
                    Err(e) => Err(e),
                    Ok((x1, n1)) => {
                        let s2 = s1.skip(n1 as int);
                        match C::spec_decode(s2) {
                            Err(e) => Err(e),
                            Ok((x2, n2)) => {
                                let s3 = s2.skip(n2 as int);
                                match D::spec_decode(s3) {
                                    Err(e) => Err(e),
                                    Ok((x3, n3)) => {
                                        let s4 = s3.skip(n3 as int);
                                        match E::spec_decode(s4) {
                                            Err(e) => Err(e),
                                            Ok((x4, n4)) => Ok(((x0, x1, x2, x3, x4), n0 + (n1 + (n2 + (n3 + n4))))),
                                        }
                                    },
                                }
                            },
                        }
                    },
                }
            },
        }
    }

    open spec fn spec_error_consumed(input: Seq<u8>) -> nat {
        match A::spec_decode(input) {
            Err(_) => A::spec_error_consumed(input),
            Ok((x0, n0)) => {
                let s1 = input.skip(n0 as int);
                n0 + match B::spec_decode(s1) {
                    Err(_) => B::spec_error_consumed(s1),
                    Ok((x1, n1)) => {
                        let s2 = s1.skip(n1 as int);
                        n1 + match C::spec_decode(s2) {
                            Err(_) => C::spec_error_consumed(s2),
                            Ok((x2, n2)) => {
                                let s3 = s2.skip(n2 as int);
                                n2 + match D::spec_decode(s3) {
                                    Err(_) => D::spec_error_consumed(s3),
                                    Ok((x3, n3)) => {
                                        let s4 = s3.skip(n3 as int);
                                        n3 + E::spec_error_consumed(s4)
                                    },
                                }
                            },
                        }
                    },
                }
            },
        }
    }

    proof fn lemma_encode_decode(m: (A::Model, B::Model, C::Model, D::Model, E::Model), rest: Seq<u8>) {
        let e = Self::spec_encode(m);
        let t0 = B::spec_encode(m.1) + (C::spec_encode(m.2) + (D::spec_encode(m.3) + (E::spec_encode(m.4) + rest)));
        let t1 = C::spec_encode(m.2) + (D::spec_encode(m.3) + (E::spec_encode(m.4) + rest));
        let t2 = D::spec_encode(m.3) + (E::spec_encode(m.4) + rest);
        let t3 = E::spec_encode(m.4) + rest;
        let t4 = rest;
        assert(e + rest =~= A::spec_encode(m.0) + t0);
        A::lemma_encode_decode(m.0, t0);
        lemma_skip_prefix(A::spec_encode(m.0), t0);
        B::lemma_encode_decode(m.1, t1);
        lemma_skip_prefix(B::spec_encode(m.1), t1);
        C::lemma_encode_decode(m.2, t2);
        lemma_skip_prefix(C::spec_encode(m.2), t2);
        D::lemma_encode_decode(m.3, t3);
        lemma_skip_prefix(D::spec_encode(m.3), t3);
        E::lemma_encode_decode(m.4, t4);
    }

    proof fn lemma_truncated(m: (A::Model, B::Model, C::Model, D::Model, E::Model), k: nat) {
        if k < Self::spec_encode(m).len() {
            lemma_truncated_step::<A>(m.0, B::spec_encode(m.1) + (C::spec_encode(m.2) + (D::spec_encode(m.3) + E::spec_encode(m.4))), k);
            if k >= A::spec_encode(m.0).len() {
                let k1 = (k - A::spec_encode(m.0).len()) as nat;
                lemma_truncated_step::<B>(m.1, C::spec_encode(m.2) + (D::spec_encode(m.3) + E::spec_encode(m.4)), k1);
                if k1 >= B::spec_encode(m.1).len() {
                    let k2 = (k1 - B::spec_encode(m.1).len()) as nat;
                    lemma_truncated_step::<C>(m.2, D::spec_encode(m.3) + E::spec_encode(m.4), k2);
                    if k2 >= C::spec_encode(m.2).len() {
                        let k3 = (k2 - C::spec_encode(m.2).len()) as nat;
                        lemma_truncated_step::<D>(m.3, E::spec_encode(m.4), k3);
                        if k3 >= D::spec_encode(m.3).len() {
                            let k4 = (k3 - D::spec_encode(m.3).len()) as nat;
                            E::lemma_truncated(m.4, k4);
                        }
                    }
                }
            }
        }
    }

    proof fn lemma_decode_wf(input: Seq<u8>) {
        A::lemma_decode_wf(input);
        if let Ok((x0, n0)) = A::spec_decode(input) {
            let s1 = input.skip(n0 as int);
            B::lemma_decode_wf(s1);
            if let Ok((x1, n1)) = B::spec_decode(s1) {
                let s2 = s1.skip(n1 as int);
                C::lemma_decode_wf(s2);
                if let Ok((x2, n2)) = C::spec_decode(s2) {
                    let s3 = s2.skip(n2 as int);
                    D::lemma_decode_wf(s3);
                    if let Ok((x3, n3)) = D::spec_decode(s3) {
                        let s4 = s3.skip(n3 as int);
                        E::lemma_decode_wf(s4);
                    }
                }
            }
        }
    }

    fn read_sync(stream: &mut Reader) -> (r: Result<(A, B, C, D, E), ReadError>) {
        proof {
            A::lemma_decode_wf(stream@);
        }
        let ghost b0 = stream@;
        let v0 = match A::read_sync(stream) {
            Ok(v) => v,
            Err(e) => return Err(e),
        };
        proof {
            B::lemma_decode_wf(stream@);
        }
        let ghost b1 = stream@;
        let v1 = match B::read_sync(stream) {
            Ok(v) => v,
            Err(e) => {
                proof {
                    let n0 = (b0.len() - b1.len()) as nat;
                    let c1 = B::spec_error_consumed(b1);
                    lemma_skip_skip(b0, n0, c1);
                }
                return Err(e);
            },
        };
        proof {
            C::lemma_decode_wf(stream@);
        }
        let ghost b2 = stream@;
        let v2 = match C::read_sync(stream) {
            Ok(v) => v,
            Err(e) => {
                proof {
                    let n0 = (b0.len() - b1.len()) as nat;
                    let n1 = (b1.len() - b2.len()) as nat;
                    let c2 = C::spec_error_consumed(b2);
                    lemma_skip_skip(b1, n1, c2);
                    lemma_skip_skip(b0, n0, n1 + c2);
                }
                return Err(e);
            },
        };
        proof {
            D::lemma_decode_wf(stream@);
        }
        let ghost b3 = stream@;
        let v3 = match D::read_sync(stream) {
            Ok(v) => v,
            Err(e) => {
                proof {
                    let n0 = (b0.len() - b1.len()) as nat;
                    let n1 = (b1.len() - b2.len()) as nat;
                    let n2 = (b2.len() - b3.len()) as nat;
                    let c3 = D::spec_error_consumed(b3);
                    lemma_skip_skip(b2, n2, c3);
                    lemma_skip_skip(b1, n1, n2 + c3);
                    lemma_skip_skip(b0, n0, n1 + (n2 + c3));
                }
                return Err(e);
            },
        };
        proof {
            E::lemma_decode_wf(stream@);
        }
        let ghost b4 = stream@;
        let v4 = match E::read_sync(stream) {
            Ok(v) => v,
            Err(e) => {
                proof {
                    let n0 = (b0.len() - b1.len()) as nat;
                    let n1 = (b1.len() - b2.len()) as nat;
                    let n2 = (b2.len() - b3.len()) as nat;
                    let n3 = (b3.len() - b4.len()) as nat;
                    let c4 = E::spec_error_consumed(b4);
                    lemma_skip_skip(b3, n3, c4);
                    lemma_skip_skip(b2, n2, n3 + c4);
                    lemma_skip_skip(b1, n1, n2 + (n3 + c4));
                    lemma_skip_skip(b0, n0, n1 + (n2 + (n3 + c4)));
                }
                return Err(e);
            },
        };
        proof {
            let n3 = (b3.len() - b4.len()) as nat;
            let n2 = (b2.len() - b3.len()) as nat;
            let n1 = (b1.len() - b2.len()) as nat;
            let n0 = (b0.len() - b1.len()) as nat;
            let n4 = (b4.len() - stream@.len()) as nat;
            lemma_skip_skip(b3, n3, n4);
            lemma_skip_skip(b2, n2, n3 + n4);
            lemma_skip_skip(b1, n1, n2 + (n3 + n4));
            lemma_skip_skip(b0, n0, n1 + (n2 + (n3 + n4)));
        }
        Ok((v0, v1, v2, v3, v4))
    }

    fn write_sync(&self, sink: &mut Vec<u8>) -> (r: Result<(), WriteError>) {
        let _ = self.0.write_sync(sink);
        let _ = self.1.write_sync(sink);
        let _ = self.2.write_sync(sink);
        let _ = self.3.write_sync(sink);
        let _ = self.4.write_sync(sink);
        assert(final(sink)@ =~= old(sink)@ + Self::spec_encode(self.model()));
        Ok(())
    }
}

impl<A: Canonical, B: Canonical, C: Canonical, D: Canonical, E: Canonical> Canonical for (A, B, C, D, E) {
    proof fn lemma_decode_encode(input: Seq<u8>) {
        A::lemma_decode_wf(input);
        A::lemma_decode_encode(input);
        if let Ok((x0, n0)) = A::spec_decode(input) {
            let s1 = input.skip(n0 as int);
            B::lemma_decode_wf(s1);
            B::lemma_decode_encode(s1);
            if let Ok((x1, n1)) = B::spec_decode(s1) {
                let s2 = s1.skip(n1 as int);
                C::lemma_decode_wf(s2);
                C::lemma_decode_encode(s2);
                if let Ok((x2, n2)) = C::spec_decode(s2) {
                    let s3 = s2.skip(n2 as int);
                    D::lemma_decode_wf(s3);
                    D::lemma_decode_encode(s3);
                    if let Ok((x3, n3)) = D::spec_decode(s3) {
                        let s4 = s3.skip(n3 as int);
                        E::lemma_decode_wf(s4);
                        E::lemma_decode_encode(s4);
                        if let Ok((x4, n4)) = E::spec_decode(s4) {
                            lemma_take_split(s3, n3, n4);
                            lemma_take_split(s2, n2, n3 + n4);
                            lemma_take_split(s1, n1, n2 + (n3 + n4));
                            lemma_take_split(input, n0, n1 + (n2 + (n3 + n4)));
                        }
                    }
                }
            }
        }
    }
}

/// A tuple of 6 components is represented by the representations of its components, in order.
impl<A: Protocol, B: Protocol, C: Protocol, D: Protocol, E: Protocol, F: Protocol> Protocol for (A, B, C, D, E, F) {
    type Model = (A::Model, B::Model, C::Model, D::Model, E::Model, F::Model);

    open spec fn model(&self) -> (A::Model, B::Model, C::Model, D::Model, E::Model, F::Model) {
        (self.0.model(), self.1.model(), self.2.model(), self.3.model(), self.4.model(), self.5.model())
    }

    open spec fn wf_model(m: (A::Model, B::Model, C::Model, D::Model, E::Model, F::Model)) -> bool {
        A::wf_model(m.0) && B::wf_model(m.1) && C::wf_model(m.2) && D::wf_model(m.3) && E::wf_model(m.4) && F::wf_model(m.5)
    }

    open spec fn spec_encode(m: (A::Model, B::Model, C::Model, D::Model, E::Model, F::Model)) -> Seq<u8> {
        A::spec_encode(m.0) + (B::spec_encode(m.1) + (C::spec_encode(m.2) + (D::spec_encode(m.3) + (E::spec_encode(m.4) + F::spec_encode(m.5)))))
    }

    open spec fn spec_decode(input: Seq<u8>) -> Result<((A::Model, B::Model, C::Model, D::Model, E::Model, F::Model), nat), ReadError> {
        match A::spec_decode(input) {
            Err(e) => Err(e),
            Ok((x0, n0)) => {
                let s1 = input.skip(n0 as int);
                match B::spec_decode(s1) {
                    Err(e) => Err(e),
                    Ok((x1, n1)) => {
                        let s2 = s1.skip(n1 as int);
                        match C::spec_decode(s2) {
                            Err(e) => Err(e),
                            Ok((x2, n2)) => {
                                let s3 = s2.skip(n2 as int);
                                match D::spec_decode(s3) {
                                    Err(e) => Err(e),
                                    Ok((x3, n3)) => {
                                        let s4 = s3.skip(n3 as int);
                                        match E::spec_decode(s4) {
                                            Err(e) => Err(e),
                                            Ok((x4, n4)) => {
                                                let s5 = s4.skip(n4 as int);
                                                match F::spec_decode(s5) {
                                                    Err(e) => Err(e),
                                                    Ok((x5, n5)) => Ok(((x0, x1, x2, x3, x4, x5), n0 + (n1 + (n2 + (n3 + (n4 + n5)))))),
                                                }
                                            },
                                        }
                                    },
                                }
                            },
                        }
                    },
                }
            },
        }
    }

    open spec fn spec_error_consumed(input: Seq<u8>) -> nat {
        match A::spec_decode(input) {
            Err(_) => A::spec_error_consumed(input),
            Ok((x0, n0)) => {
                let s1 = input.skip(n0 as int);
                n0 + match B::spec_decode(s1) {
                    Err(_) => B::spec_error_consumed(s1),
                    Ok((x1, n1)) => {
                        let s2 = s1.skip(n1 as int);
                        n1 + match C::spec_decode(s2) {
                            Err(_) => C::spec_error_consumed(s2),
                            Ok((x2, n2)) => {
                                let s3 = s2.skip(n2 as int);
                                n2 + match D::spec_decode(s3) {
                                    Err(_) => D::spec_error_consumed(s3),
                                    Ok((x3, n3)) => {
                                        let s4 = s3.skip(n3 as int);
                                        n3 + match E::spec_decode(s4) {
                                            Err(_) => E::spec_error_consumed(s4),
                                            Ok((x4, n4)) => {
                                                let s5 = s4.skip(n4 as int);
                                                n4 + F::spec_error_consumed(s5)
                                            },
                                        }
                                    },
                                }
                            },
                        }
                    },
                }
            },
        }
    }

    proof fn lemma_encode_decode(m: (A::Model, B::Model, C::Model, D::Model, E::Model, F::Model), rest: Seq<u8>) {
        let e = Self::spec_encode(m);
        let t0 = B::spec_encode(m.1) + (C::spec_encode(m.2) + (D::spec_encode(m.3) + (E::spec_encode(m.4) + (F::spec_encode(m.5) + rest))));
        let t1 = C::spec_encode(m.2) + (D::spec_encode(m.3) + (E::spec_encode(m.4) + (F::spec_encode(m.5) + rest)));
        let t2 = D::spec_encode(m.3) + (E::spec_encode(m.4) + (F::spec_encode(m.5) + rest));
        let t3 = E::spec_encode(m.4) + (F::spec_encode(m.5) + rest);
        let t4 = F::spec_encode(m.5) + rest;
        let t5 = rest;
        assert(e + rest =~= A::spec_encode(m.0) + t0);
        A::lemma_encode_decode(m.0, t0);
        lemma_skip_prefix(A::spec_encode(m.0), t0);
        B::lemma_encode_decode(m.1, t1);
        lemma_skip_prefix(B::spec_encode(m.1), t1);
        C::lemma_encode_decode(m.2, t2);
        lemma_skip_prefix(C::spec_encode(m.2), t2);
        D::lemma_encode_decode(m.3, t3);
        lemma_skip_prefix(D::spec_encode(m.3), t3);
        E::lemma_encode_decode(m.4, t4);
        lemma_skip_prefix(E::spec_encode(m.4), t4);
        F::lemma_encode_decode(m.5, t5);
    }

    proof fn lemma_truncated(m: (A::Model, B::Model, C::Model, D::Model, E::Model, F::Model), k: nat) {
        if k < Self::spec_encode(m).len() {
            lemma_truncated_step::<A>(m.0, B::spec_encode(m.1) + (C::spec_encode(m.2) + (D::spec_encode(m.3) + (E::spec_encode(m.4) + F::spec_encode(m.5)))), k);
            if k >= A::spec_encode(m.0).len() {
                let k1 = (k - A::spec_encode(m.0).len()) as nat;
                lemma_truncated_step::<B>(m.1, C::spec_encode(m.2) + (D::spec_encode(m.3) + (E::spec_encode(m.4) + F::spec_encode(m.5))), k1);
                if k1 >= B::spec_encode(m.1).len() {
                    let k2 = (k1 - B::spec_encode(m.1).len()) as nat;
                    lemma_truncated_step::<C>(m.2, D::spec_encode(m.3) + (E::spec_encode(m.4) + F::spec_encode(m.5)), k2);
                    if k2 >= C::spec_encode(m.2).len() {
                        let k3 = (k2 - C::spec_encode(m.2).len()) as nat;
                        lemma_truncated_step::<D>(m.3, E::spec_encode(m.4) + F::spec_encode(m.5), k3);
                        if k3 >= D::spec_encode(m.3).len() {
                            let k4 = (k3 - D::spec_encode(m.3).len()) as nat;
                            lemma_truncated_step::<E>(m.4, F::spec_encode(m.5), k4);
                            if k4 >= E::spec_encode(m.4).len() {
                                let k5 = (k4 - E::spec_encode(m.4).len()) as nat;
                                F::lemma_truncated(m.5, k5);
                            }
                        }
                    }
                }
            }
        }
    }

    proof fn lemma_decode_wf(input: Seq<u8>) {
        A::lemma_decode_wf(input);
        if let Ok((x0, n0)) = A::spec_decode(input) {
            let s1 = input.skip(n0 as int);
            B::lemma_decode_wf(s1);
            if let Ok((x1, n1)) = B::spec_decode(s1) {
                let s2 = s1.skip(n1 as int);
                C::lemma_decode_wf(s2);
                if let Ok((x2, n2)) = C::spec_decode(s2) {
                    let s3 = s2.skip(n2 as int);
                    D::lemma_decode_wf(s3);
                    if let Ok((x3, n3)) = D::spec_decode(s3) {
                        let s4 = s3.skip(n3 as int);
                        E::lemma_decode_wf(s4);
                        if let Ok((x4, n4)) = E::spec_decode(s4) {
                            let s5 = s4.skip(n4 as int);
                            F::lemma_decode_wf(s5);
                        }
                    }
                }
            }
        }
    }

    fn read_sync(stream: &mut Reader) -> (r: Result<(A, B, C, D, E, F), ReadError>) {
        proof {
            A::lemma_decode_wf(stream@);
        }
        let ghost b0 = stream@;
        let v0 = match A::read_sync(stream) {
            Ok(v) => v,
            Err(e) => return Err(e),
        };
        proof {
            B::lemma_decode_wf(stream@);
        }
        let ghost b1 = stream@;
        let v1 = match B::read_sync(stream) {
            Ok(v) => v,
            Err(e) => {
                proof {
                    let n0 = (b0.len() - b1.len()) as nat;
                    let c1 = B::spec_error_consumed(b1);
                    lemma_skip_skip(b0, n0, c1);
                }
                return Err(e);
            },
        };
        proof {
            C::lemma_decode_wf(stream@);
        }
        let ghost b2 = stream@;
        let v2 = match C::read_sync(stream) {
            Ok(v) => v,
            Err(e) => {
                proof {
                    let n0 = (b0.len() - b1.len()) as nat;
                    let n1 = (b1.len() - b2.len()) as nat;
                    let c2 = C::spec_error_consumed(b2);
                    lemma_skip_skip(b1, n1, c2);
                    lemma_skip_skip(b0, n0, n1 + c2);
                }
                return Err(e);
            },
        };
        proof {
            D::lemma_decode_wf(stream@);
        }
        let ghost b3 = stream@;
        let v3 = match D::read_sync(stream) {
            Ok(v) => v,
            Err(e) => {
                proof {
                    let n0 = (b0.len() - b1.len()) as nat;
                    let n1 = (b1.len() - b2.len()) as nat;
                    let n2 = (b2.len() - b3.len()) as nat;
                    let c3 = D::spec_error_consumed(b3);
                    lemma_skip_skip(b2, n2, c3);
                    lemma_skip_skip(b1, n1, n2 + c3);
                    lemma_skip_skip(b0, n0, n1 + (n2 + c3));
                }
                return Err(e);
            },
        };
        proof {
            E::lemma_decode_wf(stream@);
        }
        let ghost b4 = stream@;
        let v4 = match E::read_sync(stream) {
            Ok(v) => v,
            Err(e) => {
                proof {
                    let n0 = (b0.len() - b1.len()) as nat;
                    let n1 = (b1.len() - b2.len()) as nat;
                    let n2 = (b2.len() - b3.len()) as nat;
                    let n3 = (b3.len() - b4.len()) as nat;
                    let c4 = E::spec_error_consumed(b4);
                    lemma_skip_skip(b3, n3, c4);
                    lemma_skip_skip(b2, n2, n3 + c4);
                    lemma_skip_skip(b1, n1, n2 + (n3 + c4));
                    lemma_skip_skip(b0, n0, n1 + (n2 + (n3 + c4)));
                }
                return Err(e);
            },
        };
        proof {
            F::lemma_decode_wf(stream@);
        }
        let ghost b5 = stream@;
        let v5 = match F::read_sync(stream) {
            Ok(v) => v,
            Err(e) => {
                proof {
                    let n0 = (b0.len() - b1.len()) as nat;
                    let n1 = (b1.len() - b2.len()) as nat;
                    let n2 = (b2.len() - b3.len()) as nat;
                    let n3 = (b3.len() - b4.len()) as nat;
                    let n4 = (b4.len() - b5.len()) as nat;
                    let c5 = F::spec_error_consumed(b5);
                    lemma_skip_skip(b4, n4, c5);
                    lemma_skip_skip(b3, n3, n4 + c5);
                    lemma_skip_skip(b2, n2, n3 + (n4 + c5));
                    lemma_skip_skip(b1, n1, n2 + (n3 + (n4 + c5)));
                    lemma_skip_skip(b0, n0, n1 + (n2 + (n3 + (n4 + c5))));
                }
                return Err(e);
            },
        };
        proof {
            let n4 = (b4.len() - b5.len()) as nat;
            let n3 = (b3.len() - b4.len()) as nat;
            let n2 = (b2.len() - b3.len()) as nat;
            let n1 = (b1.len() - b2.len()) as nat;
            let n0 = (b0.len() - b1.len()) as nat;
            let n5 = (b5.len() - stream@.len()) as nat;
            lemma_skip_skip(b4, n4, n5);
            lemma_skip_skip(b3, n3, n4 + n5);
            lemma_skip_skip(b2, n2, n3 + (n4 + n5));
            lemma_skip_skip(b1, n1, n2 + (n3 + (n4 + n5)));
            lemma_skip_skip(b0, n0, n1 + (n2 + (n3 + (n4 + n5))));
        }
        Ok((v0, v1, v2, v3, v4, v5))
    }

    fn write_sync(&self, sink: &mut Vec<u8>) -> (r: Result<(), WriteError>) {
        let _ = self.0.write_sync(sink);
        let _ = self.1.write_sync(sink);
        let _ = self.2.write_sync(sink);
        let _ = self.3.write_sync(sink);
        let _ = self.4.write_sync(sink);
        let _ = self.5.write_sync(sink);
        assert(final(sink)@ =~= old(sink)@ + Self::spec_encode(self.model()));
        Ok(())
    }
}

impl<A: Canonical, B: Canonical, C: Canonical, D: Canonical, E: Canonical, F: Canonical> Canonical for (A, B, C, D, E, F) {
    proof fn lemma_decode_encode(input: Seq<u8>) {
        A::lemma_decode_wf(input);
        A::lemma_decode_encode(input);
        if let Ok((x0, n0)) = A::spec_decode(input) {
            let s1 = input.skip(n0 as int);
            B::lemma_decode_wf(s1);
            B::lemma_decode_encode(s1);
            if let Ok((x1, n1)) = B::spec_decode(s1) {
                let s2 = s1.skip(n1 as int);
                C::lemma_decode_wf(s2);
                C::lemma_decode_encode(s2);
                if let Ok((x2, n2)) = C::spec_decode(s2) {
                    let s3 = s2.skip(n2 as int);
                    D::lemma_decode_wf(s3);
                    D::lemma_decode_encode(s3);
                    if let Ok((x3, n3)) = D::spec_decode(s3) {
                        let s4 = s3.skip(n3 as int);
                        E::lemma_decode_wf(s4);
                        E::lemma_decode_encode(s4);
                        if let Ok((x4, n4)) = E::spec_decode(s4) {
                            let s5 = s4.skip(n4 as int);
                            F::lemma_decode_wf(s5);
                            F::lemma_decode_encode(s5);
                            if let Ok((x5, n5)) = F::spec_decode(s5) {
                                lemma_take_split(s4, n4, n5);
                                lemma_take_split(s3, n3, n4 + n5);
                                lemma_take_split(s2, n2, n3 + (n4 + n5));
                                lemma_take_split(s1, n1, n2 + (n3 + (n4 + n5)));
                                lemma_take_split(input, n0, n1 + (n2 + (n3 + (n4 + n5))));
                            }
                        }
                    }
                }
            }
        }
    }
}

/// A tuple of 7 components is represented by the representations of its components, in order.
impl<A: Protocol, B: Protocol, C: Protocol, D: Protocol, E: Protocol, F: Protocol, G: Protocol> Protocol for (A, B, C, D, E, F, G) {
    type Model = (A::Model, B::Model, C::Model, D::Model, E::Model, F::Model, G::Model);

    open spec fn model(&self) -> (A::Model, B::Model, C::Model, D::Model, E::Model, F::Model, G::Model) {
        (self.0.model(), self.1.model(), self.2.model(), self.3.model(), self.4.model(), self.5.model(), self.6.model())
    }

    open spec fn wf_model(m: (A::Model, B::Model, C::Model, D::Model, E::Model, F::Model, G::Model)) -> bool {
        A::wf_model(m.0) && B::wf_model(m.1) && C::wf_model(m.2) && D::wf_model(m.3) && E::wf_model(m.4) && F::wf_model(m.5) && G::wf_model(m.6)
    }

    open spec fn spec_encode(m: (A::Model, B::Model, C::Model, D::Model, E::Model, F::Model, G::Model)) -> Seq<u8> {
        A::spec_encode(m.0) + (B::spec_encode(m.1) + (C::spec_encode(m.2) + (D::spec_encode(m.3) + (E::spec_encode(m.4) + (F::spec_encode(m.5) + G::spec_encode(m.6))))))
    }

    open spec fn spec_decode(input: Seq<u8>) -> Result<((A::Model, B::Model, C::Model, D::Model, E::Model, F::Model, G::Model), nat), ReadError> {
        match A::spec_decode(input) {
            Err(e) => Err(e),
            Ok((x0, n0)) => {
                let s1 = input.skip(n0 as int);
                match B::spec_decode(s1) {
                    Err(e) => Err(e),
                    Ok((x1, n1)) => {
                        let s2 = s1.skip(n1 as int);
                        match C::spec_decode(s2) {
                            Err(e) => Err(e),
                            Ok((x2, n2)) => {
                                let s3 = s2.skip(n2 as int);
                                match D::spec_decode(s3) {
                                    Err(e) => Err(e),
                                    Ok((x3, n3)) => {
                                        let s4 = s3.skip(n3 as int);
                                        match E::spec_decode(s4) {
                                            Err(e) => Err(e),
                                            Ok((x4, n4)) => {
                                                let s5 = s4.skip(n4 as int);
                                                match F::spec_decode(s5) {
                                                    Err(e) => Err(e),
                                                    Ok((x5, n5)) => {
                                                        let s6 = s5.skip(n5 as int);
                                                        match G::spec_decode(s6) {
                                                            Err(e) => Err(e),
                                                            Ok((x6, n6)) => Ok(((x0, x1, x2, x3, x4, x5, x6), n0 + (n1 + (n2 + (n3 + (n4 + (n5 + n6))))))),
                                                        }
                                                    },
                                                }
                                            },
                                        }
                                    },
                                }
                            },
                        }
                    },
                }
            },
        }
    }

    open spec fn spec_error_consumed(input: Seq<u8>) -> nat {
        match A::spec_decode(input) {
            Err(_) => A::spec_error_consumed(input),
            Ok((x0, n0)) => {
                let s1 = input.skip(n0 as int);
                n0 + match B::spec_decode(s1) {
                    Err(_) => B::spec_error_consumed(s1),
                    Ok((x1, n1)) => {
                        let s2 = s1.skip(n1 as int);
                        n1 + match C::spec_decode(s2) {
                            Err(_) => C::spec_error_consumed(s2),
                            Ok((x2, n2)) => {
                                let s3 = s2.skip(n2 as int);
                                n2 + match D::spec_decode(s3) {
                                    Err(_) => D::spec_error_consumed(s3),
                                    Ok((x3, n3)) => {
                                        let s4 = s3.skip(n3 as int);
                                        n3 + match E::spec_decode(s4) {
                                            Err(_) => E::spec_error_consumed(s4),
                                            Ok((x4, n4)) => {
                                                let s5 = s4.skip(n4 as int);
                                                n4 + match F::spec_decode(s5) {
                                                    Err(_) => F::spec_error_consumed(s5),
                                                    Ok((x5, n5)) => {
                                                        let s6 = s5.skip(n5 as int);
                                                        n5 + G::spec_error_consumed(s6)
                                                    },
                                                }
                                            },
                                        }
                                    },
                                }
                            },
                        }
                    },
                }
            },
        }
    }

    proof fn lemma_encode_decode(m: (A::Model, B::Model, C::Model, D::Model, E::Model, F::Model, G::Model), rest: Seq<u8>) {
        let e = Self::spec_encode(m);
        let t0 = B::spec_encode(m.1) + (C::spec_encode(m.2) + (D::spec_encode(m.3) + (E::spec_encode(m.4) + (F::spec_encode(m.5) + (G::spec_encode(m.6) + rest)))));
        let t1 = C::spec_encode(m.2) + (D::spec_encode(m.3) + (E::spec_encode(m.4) + (F::spec_encode(m.5) + (G::spec_encode(m.6) + rest))));
        let t2 = D::spec_encode(m.3) + (E::spec_encode(m.4) + (F::spec_encode(m.5) + (G::spec_encode(m.6) + rest)));
        let t3 = E::spec_encode(m.4) + (F::spec_encode(m.5) + (G::spec_encode(m.6) + rest));
        let t4 = F::spec_encode(m.5) + (G::spec_encode(m.6) + rest);
        let t5 = G::spec_encode(m.6) + rest;
        let t6 = rest;
        assert(e + rest =~= A::spec_encode(m.0) + t0);
        A::lemma_encode_decode(m.0, t0);
        lemma_skip_prefix(A::spec_encode(m.0), t0);
        B::lemma_encode_decode(m.1, t1);
        lemma_skip_prefix(B::spec_encode(m.1), t1);
        C::lemma_encode_decode(m.2, t2);
        lemma_skip_prefix(C::spec_encode(m.2), t2);
        D::lemma_encode_decode(m.3, t3);
        lemma_skip_prefix(D::spec_encode(m.3), t3);
        E::lemma_encode_decode(m.4, t4);
        lemma_skip_prefix(E::spec_encode(m.4), t4);
        F::lemma_encode_decode(m.5, t5);
        lemma_skip_prefix(F::spec_encode(m.5), t5);
        G::lemma_encode_decode(m.6, t6);
    }

    proof fn lemma_truncated(m: (A::Model, B::Model, C::Model, D::Model, E::Model, F::Model, G::Model), k: nat) {
        if k < Self::spec_encode(m).len() {
            lemma_truncated_step::<A>(m.0, B::spec_encode(m.1) + (C::spec_encode(m.2) + (D::spec_encode(m.3) + (E::spec_encode(m.4) + (F::spec_encode(m.5) + G::spec_encode(m.6))))), k);
            if k >= A::spec_encode(m.0).len() {
                let k1 = (k - A::spec_encode(m.0).len()) as nat;
                lemma_truncated_step::<B>(m.1, C::spec_encode(m.2) + (D::spec_encode(m.3) + (E::spec_encode(m.4) + (F::spec_encode(m.5) + G::spec_encode(m.6)))), k1);
                if k1 >= B::spec_encode(m.1).len() {
                    let k2 = (k1 - B::spec_encode(m.1).len()) as nat;
                    lemma_truncated_step::<C>(m.2, D::spec_encode(m.3) + (E::spec_encode(m.4) + (F::spec_encode(m.5) + G::spec_encode(m.6))), k2);
                    if k2 >= C::spec_encode(m.2).len() {
                        let k3 = (k2 - C::spec_encode(m.2).len()) as nat;
                        lemma_truncated_step::<D>(m.3, E::spec_encode(m.4) + (F::spec_encode(m.5) + G::spec_encode(m.6)), k3);
                        if k3 >= D::spec_encode(m.3).len() {
                            let k4 = (k3 - D::spec_encode(m.3).len()) as nat;
                            lemma_truncated_step::<E>(m.4, F::spec_encode(m.5) + G::spec_encode(m.6), k4);
                            if k4 >= E::spec_encode(m.4).len() {
                                let k5 = (k4 - E::spec_encode(m.4).len()) as nat;
                                lemma_truncated_step::<F>(m.5, G::spec_encode(m.6), k5);
                                if k5 >= F::spec_encode(m.5).len() {
                                    let k6 = (k5 - F::spec_encode(m.5).len()) as nat;
                                    G::lemma_truncated(m.6, k6);
                                }
                            }
                        }
                    }
                }
            }
        }
    }

    proof fn lemma_decode_wf(input: Seq<u8>) {
        A::lemma_decode_wf(input);
        if let Ok((x0, n0)) = A::spec_decode(input) {
            let s1 = input.skip(n0 as int);
            B::lemma_decode_wf(s1);
            if let Ok((x1, n1)) = B::spec_decode(s1) {
                let s2 = s1.skip(n1 as int);
                C::lemma_decode_wf(s2);
                if let Ok((x2, n2)) = C::spec_decode(s2) {
                    let s3 = s2.skip(n2 as int);
                    D::lemma_decode_wf(s3);
                    if let Ok((x3, n3)) = D::spec_decode(s3) {
                        let s4 = s3.skip(n3 as int);
                        E::lemma_decode_wf(s4);
                        if let Ok((x4, n4)) = E::spec_decode(s4) {
                            let s5 = s4.skip(n4 as int);
                            F::lemma_decode_wf(s5);
                            if let Ok((x5, n5)) = F::spec_decode(s5) {
                                let s6 = s5.skip(n5 as int);
                                G::lemma_decode_wf(s6);
                            }
                        }
                    }
                }
            }
        }
    }

    #[verifier::spinoff_prover]
    #[verifier::rlimit(40)]
    fn read_sync(stream: &mut Reader) -> (r: Result<(A, B, C, D, E, F, G), ReadError>) {
        proof {
            A::lemma_decode_wf(stream@);
        }
        let ghost b0 = stream@;
        let v0 = match A::read_sync(stream) {
            Ok(v) => v,
            Err(e) => return Err(e),
        };
        proof {
            B::lemma_decode_wf(stream@);
        }
        let ghost b1 = stream@;
        let v1 = match B::read_sync(stream) {
            Ok(v) => v,
            Err(e) => {
                proof {
                    let n0 = (b0.len() - b1.len()) as nat;
                    let c1 = B::spec_error_consumed(b1);
                    lemma_skip_skip(b0, n0, c1);
                }
                return Err(e);
            },
        };
        proof {
            C::lemma_decode_wf(stream@);
        }
        let ghost b2 = stream@;
        let v2 = match C::read_sync(stream) {
            Ok(v) => v,
            Err(e) => {
                proof {
                    let n0 = (b0.len() - b1.len()) as nat;
                    let n1 = (b1.len() - b2.len()) as nat;
                    let c2 = C::spec_error_consumed(b2);
                    lemma_skip_skip(b1, n1, c2);
                    lemma_skip_skip(b0, n0, n1 + c2);
                }
                return Err(e);
            },
        };
        proof {
            D::lemma_decode_wf(stream@);
        }
        let ghost b3 = stream@;
        let v3 = match D::read_sync(stream) {
            Ok(v) => v,
            Err(e) => {
                proof {
                    let n0 = (b0.len() - b1.len()) as nat;
                    let n1 = (b1.len() - b2.len()) as nat;
                    let n2 = (b2.len() - b3.len()) as nat;
                    let c3 = D::spec_error_consumed(b3);
                    lemma_skip_skip(b2, n2, c3);
                    lemma_skip_skip(b1, n1, n2 + c3);
                    lemma_skip_skip(b0, n0, n1 + (n2 + c3));
                }
                return Err(e);
            },
        };
        proof {
            E::lemma_decode_wf(stream@);
        }
        let ghost b4 = stream@;
        let v4 = match E::read_sync(stream) {
            Ok(v) => v,
            Err(e) => {
                proof {
                    let n0 = (b0.len() - b1.len()) as nat;
                    let n1 = (b1.len() - b2.len()) as nat;
                    let n2 = (b2.len() - b3.len()) as nat;
                    let n3 = (b3.len() - b4.len()) as nat;
                    let c4 = E::spec_error_consumed(b4);
                    lemma_skip_skip(b3, n3, c4);
                    lemma_skip_skip(b2, n2, n3 + c4);
                    lemma_skip_skip(b1, n1, n2 + (n3 + c4));
                    lemma_skip_skip(b0, n0, n1 + (n2 + (n3 + c4)));
                }
                return Err(e);
            },
        };
        proof {
            F::lemma_decode_wf(stream@);
        }
        let ghost b5 = stream@;
        let v5 = match F::read_sync(stream) {
            Ok(v) => v,
            Err(e) => {
                proof {
                    let n0 = (b0.len() - b1.len()) as nat;
                    let n1 = (b1.len() - b2.len()) as nat;
                    let n2 = (b2.len() - b3.len()) as nat;
                    let n3 = (b3.len() - b4.len()) as nat;
                    let n4 = (b4.len() - b5.len()) as nat;
                    let c5 = F::spec_error_consumed(b5);
                    lemma_skip_skip(b4, n4, c5);
                    lemma_skip_skip(b3, n3, n4 + c5);
                    lemma_skip_skip(b2, n2, n3 + (n4 + c5));
                    lemma_skip_skip(b1, n1, n2 + (n3 + (n4 + c5)));
                    lemma_skip_skip(b0, n0, n1 + (n2 + (n3 + (n4 + c5))));
                }
                return Err(e);
            },
        };
        proof {
            G::lemma_decode_wf(stream@);
        }
        let ghost b6 = stream@;
        let v6 = match G::read_sync(stream) {
            Ok(v) => v,
            Err(e) => {
                proof {
                    let n0 = (b0.len() - b1.len()) as nat;
                    let n1 = (b1.len() - b2.len()) as nat;
                    let n2 = (b2.len() - b3.len()) as nat;
                    let n3 = (b3.len() - b4.len()) as nat;
                    let n4 = (b4.len() - b5.len()) as nat;
                    let n5 = (b5.len() - b6.len()) as nat;
                    let c6 = G::spec_error_consumed(b6);
                    lemma_skip_skip(b5, n5, c6);
                    lemma_skip_skip(b4, n4, n5 + c6);
                    lemma_skip_skip(b3, n3, n4 + (n5 + c6));
                    lemma_skip_skip(b2, n2, n3 + (n4 + (n5 + c6)));
                    lemma_skip_skip(b1, n1, n2 + (n3 + (n4 + (n5 + c6))));
                    lemma_skip_skip(b0, n0, n1 + (n2 + (n3 + (n4 + (n5 + c6)))));
                }
                return Err(e);
            },
        };
        proof {
            let n5 = (b5.len() - b6.len()) as nat;
            let n4 = (b4.len() - b5.len()) as nat;
            let n3 = (b3.len() - b4.len()) as nat;
            let n2 = (b2.len() - b3.len()) as nat;
            let n1 = (b1.len() - b2.len()) as nat;
            let n0 = (b0.len() - b1.len()) as nat;
            let n6 = (b6.len() - stream@.len()) as nat;
            lemma_skip_skip(b5, n5, n6);
            lemma_skip_skip(b4, n4, n5 + n6);
            lemma_skip_skip(b3, n3, n4 + (n5 + n6));
            lemma_skip_skip(b2, n2, n3 + (n4 + (n5 + n6)));
            lemma_skip_skip(b1, n1, n2 + (n3 + (n4 + (n5 + n6))));
            lemma_skip_skip(b0, n0, n1 + (n2 + (n3 + (n4 + (n5 + n6)))));
        }
        Ok((v0, v1, v2, v3, v4, v5, v6))
    }

    #[verifier::spinoff_prover]
    #[verifier::rlimit(40)]
    fn write_sync(&self, sink: &mut Vec<u8>) -> (r: Result<(), WriteError>) {
        let _ = self.0.write_sync(sink);
        let _ = self.1.write_sync(sink);
        let _ = self.2.write_sync(sink);
        let _ = self.3.write_sync(sink);
        let _ = self.4.write_sync(sink);
        let _ = self.5.write_sync(sink);
        let _ = self.6.write_sync(sink);
        assert(final(sink)@ =~= old(sink)@ + Self::spec_encode(self.model()));
        Ok(())
    }
}

impl<A: Canonical, B: Canonical, C: Canonical, D: Canonical, E: Canonical, F: Canonical, G: Canonical> Canonical for (A, B, C, D, E, F, G) {
    proof fn lemma_decode_encode(input: Seq<u8>) {
        A::lemma_decode_wf(input);
        A::lemma_decode_encode(input);
        if let Ok((x0, n0)) = A::spec_decode(input) {
            let s1 = input.skip(n0 as int);
            B::lemma_decode_wf(s1);
            B::lemma_decode_encode(s1);
            if let Ok((x1, n1)) = B::spec_decode(s1) {
                let s2 = s1.skip(n1 as int);
                C::lemma_decode_wf(s2);
                C::lemma_decode_encode(s2);
                if let Ok((x2, n2)) = C::spec_decode(s2) {
                    let s3 = s2.skip(n2 as int);
                    D::lemma_decode_wf(s3);
                    D::lemma_decode_encode(s3);
                    if let Ok((x3, n3)) = D::spec_decode(s3) {
                        let s4 = s3.skip(n3 as int);
                        E::lemma_decode_wf(s4);
                        E::lemma_decode_encode(s4);
                        if let Ok((x4, n4)) = E::spec_decode(s4) {
                            let s5 = s4.skip(n4 as int);
                            F::lemma_decode_wf(s5);
                            F::lemma_decode_encode(s5);
                            if let Ok((x5, n5)) = F::spec_decode(s5) {
                                let s6 = s5.skip(n5 as int);
                                G::lemma_decode_wf(s6);
                                G::lemma_decode_encode(s6);
                                if let Ok((x6, n6)) = G::spec_decode(s6) {
                                    lemma_take_split(s5, n5, n6);
                                    lemma_take_split(s4, n4, n5 + n6);
                                    lemma_take_split(s3, n3, n4 + (n5 + n6));
                                    lemma_take_split(s2, n2, n3 + (n4 + (n5 + n6)));
                                    lemma_take_split(s1, n1, n2 + (n3 + (n4 + (n5 + n6))));
                                    lemma_take_split(input, n0, n1 + (n2 + (n3 + (n4 + (n5 + n6)))));
                                }
                            }
                        }
                    }
                }
            }
        }
    }
}

/// A tuple of 8 components is represented by the representations of its components, in order.
impl<A: Protocol, B: Protocol, C: Protocol, D: Protocol, E: Protocol, F: Protocol, G: Protocol, H: Protocol> Protocol for (A, B, C, D, E, F, G, H) {
    type Model = (A::Model, B::Model, C::Model, D::Model, E::Model, F::Model, G::Model, H::Model);

    open spec fn model(&self) -> (A::Model, B::Model, C::Model, D::Model, E::Model, F::Model, G::Model, H::Model) {
        (self.0.model(), self.1.model(), self.2.model(), self.3.model(), self.4.model(), self.5.model(), self.6.model(), self.7.model())
    }

    open spec fn wf_model(m: (A::Model, B::Model, C::Model, D::Model, E::Model, F::Model, G::Model, H::Model)) -> bool {
        A::wf_model(m.0) && B::wf_model(m.1) && C::wf_model(m.2) && D::wf_model(m.3) && E::wf_model(m.4) && F::wf_model(m.5) && G::wf_model(m.6) && H::wf_model(m.7)
    }

    open spec fn spec_encode(m: (A::Model, B::Model, C::Model, D::Model, E::Model, F::Model, G::Model, H::Model)) -> Seq<u8> {
        A::spec_encode(m.0) + (B::spec_encode(m.1) + (C::spec_encode(m.2) + (D::spec_encode(m.3) + (E::spec_encode(m.4) + (F::spec_encode(m.5) + (G::spec_encode(m.6) + H::spec_encode(m.7)))))))
    }

    open spec fn spec_decode(input: Seq<u8>) -> Result<((A::Model, B::Model, C::Model, D::Model, E::Model, F::Model, G::Model, H::Model), nat), ReadError> {
        match A::spec_decode(input) {
            Err(e) => Err(e),
            Ok((x0, n0)) => {
                let s1 = input.skip(n0 as int);
                match B::spec_decode(s1) {
                    Err(e) => Err(e),
                    Ok((x1, n1)) => {
                        let s2 = s1.skip(n1 as int);
                        match C::spec_decode(s2) {
                            Err(e) => Err(e),
                            Ok((x2, n2)) => {
                                let s3 = s2.skip(n2 as int);
                                match D::spec_decode(s3) {
                                    Err(e) => Err(e),
                                    Ok((x3, n3)) => {
                                        let s4 = s3.skip(n3 as int);
                                        match E::spec_decode(s4) {
                                            Err(e) => Err(e),
                                            Ok((x4, n4)) => {
                                                let s5 = s4.skip(n4 as int);
                                                match F::spec_decode(s5) {
                                                    Err(e) => Err(e),
                                                    Ok((x5, n5)) => {
                                                        let s6 = s5.skip(n5 as int);
                                                        match G::spec_decode(s6) {
                                                            Err(e) => Err(e),
                                                            Ok((x6, n6)) => {
                                                                let s7 = s6.skip(n6 as int);
                                                                match H::spec_decode(s7) {
                                                                    Err(e) => Err(e),
                                                                    Ok((x7, n7)) => Ok(((x0, x1, x2, x3, x4, x5, x6, x7), n0 + (n1 + (n2 + (n3 + (n4 + (n5 + (n6 + n7)))))))),
                                                                }
                                                            },
                                                        }
                                                    },
                                                }
                                            },
                                        }
                                    },
                                }
                            },
                        }
                    },
                }
            },
        }
    }

    open spec fn spec_error_consumed(input: Seq<u8>) -> nat {
        match A::spec_decode(input) {
            Err(_) => A::spec_error_consumed(input),
            Ok((x0, n0)) => {
                let s1 = input.skip(n0 as int);
                n0 + match B::spec_decode(s1) {
                    Err(_) => B::spec_error_consumed(s1),
                    Ok((x1, n1)) => {
                        let s2 = s1.skip(n1 as int);
                        n1 + match C::spec_decode(s2) {
                            Err(_) => C::spec_error_consumed(s2),
                            Ok((x2, n2)) => {
                                let s3 = s2.skip(n2 as int);
                                n2 + match D::spec_decode(s3) {
                                    Err(_) => D::spec_error_consumed(s3),
                                    Ok((x3, n3)) => {
                                        let s4 = s3.skip(n3 as int);
                                        n3 + match E::spec_decode(s4) {
                                            Err(_) => E::spec_error_consumed(s4),
                                            Ok((x4, n4)) => {
                                                let s5 = s4.skip(n4 as int);
                                                n4 + match F::spec_decode(s5) {
                                                    Err(_) => F::spec_error_consumed(s5),
                                                    Ok((x5, n5)) => {
                                                        let s6 = s5.skip(n5 as int);
                                                        n5 + match G::spec_decode(s6) {
                                                            Err(_) => G::spec_error_consumed(s6),
                                                            Ok((x6, n6)) => {
                                                                let s7 = s6.skip(n6 as int);
                                                                n6 + H::spec_error_consumed(s7)
                                                            },
                                                        }
                                                    },
                                                }
                                            },
                                        }
                                    },
                                }
                            },
                        }
                    },
                }
            },
        }
    }

    proof fn lemma_encode_decode(m: (A::Model, B::Model, C::Model, D::Model, E::Model, F::Model, G::Model, H::Model), rest: Seq<u8>) {
        let e = Self::spec_encode(m);
        let t0 = B::spec_encode(m.1) + (C::spec_encode(m.2) + (D::spec_encode(m.3) + (E::spec_encode(m.4) + (F::spec_encode(m.5) + (G::spec_encode(m.6) + (H::spec_encode(m.7) + rest))))));
        let t1 = C::spec_encode(m.2) + (D::spec_encode(m.3) + (E::spec_encode(m.4) + (F::spec_encode(m.5) + (G::spec_encode(m.6) + (H::spec_encode(m.7) + rest)))));
        let t2 = D::spec_encode(m.3) + (E::spec_encode(m.4) + (F::spec_encode(m.5) + (G::spec_encode(m.6) + (H::spec_encode(m.7) + rest))));
        let t3 = E::spec_encode(m.4) + (F::spec_encode(m.5) + (G::spec_encode(m.6) + (H::spec_encode(m.7) + rest)));
        let t4 = F::spec_encode(m.5) + (G::spec_encode(m.6) + (H::spec_encode(m.7) + rest));
        let t5 = G::spec_encode(m.6) + (H::spec_encode(m.7) + rest);
        let t6 = H::spec_encode(m.7) + rest;
        let t7 = rest;
        assert(e + rest =~= A::spec_encode(m.0) + t0);
        A::lemma_encode_decode(m.0, t0);
        lemma_skip_prefix(A::spec_encode(m.0), t0);
        B::lemma_encode_decode(m.1, t1);
        lemma_skip_prefix(B::spec_encode(m.1), t1);
        C::lemma_encode_decode(m.2, t2);
        lemma_skip_prefix(C::spec_encode(m.2), t2);
        D::lemma_encode_decode(m.3, t3);
        lemma_skip_prefix(D::spec_encode(m.3), t3);
        E::lemma_encode_decode(m.4, t4);
        lemma_skip_prefix(E::spec_encode(m.4), t4);
        F::lemma_encode_decode(m.5, t5);
        lemma_skip_prefix(F::spec_encode(m.5), t5);
        G::lemma_encode_decode(m.6, t6);
        lemma_skip_prefix(G::spec_encode(m.6), t6);
        H::lemma_encode_decode(m.7, t7);
    }

    proof fn lemma_truncated(m: (A::Model, B::Model, C::Model, D::Model, E::Model, F::Model, G::Model, H::Model), k: nat) {
        if k < Self::spec_encode(m).len() {
            lemma_truncated_step::<A>(m.0, B::spec_encode(m.1) + (C::spec_encode(m.2) + (D::spec_encode(m.3) + (E::spec_encode(m.4) + (F::spec_encode(m.5) + (G::spec_encode(m.6) + H::spec_encode(m.7)))))), k);
            if k >= A::spec_encode(m.0).len() {
                let k1 = (k - A::spec_encode(m.0).len()) as nat;
                lemma_truncated_step::<B>(m.1, C::spec_encode(m.2) + (D::spec_encode(m.3) + (E::spec_encode(m.4) + (F::spec_encode(m.5) + (G::spec_encode(m.6) + H::spec_encode(m.7))))), k1);
                if k1 >= B::spec_encode(m.1).len() {
                    let k2 = (k1 - B::spec_encode(m.1).len()) as nat;
                    lemma_truncated_step::<C>(m.2, D::spec_encode(m.3) + (E::spec_encode(m.4) + (F::spec_encode(m.5) + (G::spec_encode(m.6) + H::spec_encode(m.7)))), k2);
                    if k2 >= C::spec_encode(m.2).len() {
                        let k3 = (k2 - C::spec_encode(m.2).len()) as nat;
                        lemma_truncated_step::<D>(m.3, E::spec_encode(m.4) + (F::spec_encode(m.5) + (G::spec_encode(m.6) + H::spec_encode(m.7))), k3);
                        if k3 >= D::spec_encode(m.3).len() {
                            let k4 = (k3 - D::spec_encode(m.3).len()) as nat;
                            lemma_truncated_step::<E>(m.4, F::spec_encode(m.5) + (G::spec_encode(m.6) + H::spec_encode(m.7)), k4);
                            if k4 >= E::spec_encode(m.4).len() {
                                let k5 = (k4 - E::spec_encode(m.4).len()) as nat;
                                lemma_truncated_step::<F>(m.5, G::spec_encode(m.6) + H::spec_encode(m.7), k5);
                                if k5 >= F::spec_encode(m.5).len() {
                                    let k6 = (k5 - F::spec_encode(m.5).len()) as nat;
                                    lemma_truncated_step::<G>(m.6, H::spec_encode(m.7), k6);
                                    if k6 >= G::spec_encode(m.6).len() {
                                        let k7 = (k6 - G::spec_encode(m.6).len()) as nat;
                                        H::lemma_truncated(m.7, k7);
                                    }
                                }
                            }
                        }
                    }
                }
            }
        }
    }

    proof fn lemma_decode_wf(input: Seq<u8>) {
        A::lemma_decode_wf(input);
        if let Ok((x0, n0)) = A::spec_decode(input) {
            let s1 = input.skip(n0 as int);
            B::lemma_decode_wf(s1);
            if let Ok((x1, n1)) = B::spec_decode(s1) {
                let s2 = s1.skip(n1 as int);
                C::lemma_decode_wf(s2);
                if let Ok((x2, n2)) = C::spec_decode(s2) {
                    let s3 = s2.skip(n2 as int);
                    D::lemma_decode_wf(s3);
                    if let Ok((x3, n3)) = D::spec_decode(s3) {
                        let s4 = s3.skip(n3 as int);
                        E::lemma_decode_wf(s4);
                        if let Ok((x4, n4)) = E::spec_decode(s4) {
                            let s5 = s4.skip(n4 as int);
                            F::lemma_decode_wf(s5);
                            if let Ok((x5, n5)) = F::spec_decode(s5) {
                                let s6 = s5.skip(n5 as int);
                                G::lemma_decode_wf(s6);
                                if let Ok((x6, n6)) = G::spec_decode(s6) {
                                    let s7 = s6.skip(n6 as int);
                                    H::lemma_decode_wf(s7);
                                }
                            }
                        }
                    }
                }
            }
        }
    }

    #[verifier::spinoff_prover]
    #[verifier::rlimit(40)]
    fn read_sync(stream: &mut Reader) -> (r: Result<(A, B, C, D, E, F, G, H), ReadError>) {
        proof {
            A::lemma_decode_wf(stream@);
        }
        let ghost b0 = stream@;
        let v0 = match A::read_sync(stream) {
            Ok(v) => v,
            Err(e) => return Err(e),
        };
        proof {
            B::lemma_decode_wf(stream@);
        }
        let ghost b1 = stream@;
        let v1 = match B::read_sync(stream) {
            Ok(v) => v,
            Err(e) => {
                proof {
                    let n0 = (b0.len() - b1.len()) as nat;
                    let c1 = B::spec_error_consumed(b1);
                    lemma_skip_skip(b0, n0, c1);
                }
                return Err(e);
            },
        };
        proof {
            C::lemma_decode_wf(stream@);
        }
        let ghost b2 = stream@;
        let v2 = match C::read_sync(stream) {
            Ok(v) => v,
            Err(e) => {
                proof {
                    let n0 = (b0.len() - b1.len()) as nat;
                    let n1 = (b1.len() - b2.len()) as nat;
                    let c2 = C::spec_error_consumed(b2);
                    lemma_skip_skip(b1, n1, c2);
                    lemma_skip_skip(b0, n0, n1 + c2);
                }
                return Err(e);
            },
        };
        proof {
            D::lemma_decode_wf(stream@);
        }
        let ghost b3 = stream@;
        let v3 = match D::read_sync(stream) {
            Ok(v) => v,
            Err(e) => {
                proof {
                    let n0 = (b0.len() - b1.len()) as nat;
                    let n1 = (b1.len() - b2.len()) as nat;
                    let n2 = (b2.len() - b3.len()) as nat;
                    let c3 = D::spec_error_consumed(b3);
                    lemma_skip_skip(b2, n2, c3);
                    lemma_skip_skip(b1, n1, n2 + c3);
                    lemma_skip_skip(b0, n0, n1 + (n2 + c3));
                }
                return Err(e);
            },
        };
        proof {
            E::lemma_decode_wf(stream@);
        }
        let ghost b4 = stream@;
        let v4 = match E::read_sync(stream) {
            Ok(v) => v,
            Err(e) => {
                proof {
                    let n0 = (b0.len() - b1.len()) as nat;
                    let n1 = (b1.len() - b2.len()) as nat;
                    let n2 = (b2.len() - b3.len()) as nat;
                    let n3 = (b3.len() - b4.len()) as nat;
                    let c4 = E::spec_error_consumed(b4);
                    lemma_skip_skip(b3, n3, c4);
                    lemma_skip_skip(b2, n2, n3 + c4);
                    lemma_skip_skip(b1, n1, n2 + (n3 + c4));
                    lemma_skip_skip(b0, n0, n1 + (n2 + (n3 + c4)));
                }
                return Err(e);
            },
        };
        proof {
            F::lemma_decode_wf(stream@);
        }
        let ghost b5 = stream@;
        let v5 = match F::read_sync(stream) {
            Ok(v) => v,
            Err(e) => {
                proof {
                    let n0 = (b0.len() - b1.len()) as nat;
                    let n1 = (b1.len() - b2.len()) as nat;
                    let n2 = (b2.len() - b3.len()) as nat;
                    let n3 = (b3.len() - b4.len()) as nat;
                    let n4 = (b4.len() - b5.len()) as nat;
                    let c5 = F::spec_error_consumed(b5);
                    lemma_skip_skip(b4, n4, c5);
                    lemma_skip_skip(b3, n3, n4 + c5);
                    lemma_skip_skip(b2, n2, n3 + (n4 + c5));
                    lemma_skip_skip(b1, n1, n2 + (n3 + (n4 + c5)));
                    lemma_skip_skip(b0, n0, n1 + (n2 + (n3 + (n4 + c5))));
                }
                return Err(e);
            },
        };
        proof {
            G::lemma_decode_wf(stream@);
        }
        let ghost b6 = stream@;
        let v6 = match G::read_sync(stream) {
            Ok(v) => v,
            Err(e) => {
                proof {
                    let n0 = (b0.len() - b1.len()) as nat;
                    let n1 = (b1.len() - b2.len()) as nat;
                    let n2 = (b2.len() - b3.len()) as nat;
                    let n3 = (b3.len() - b4.len()) as nat;
                    let n4 = (b4.len() - b5.len()) as nat;
                    let n5 = (b5.len() - b6.len()) as nat;
                    let c6 = G::spec_error_consumed(b6);
                    lemma_skip_skip(b5, n5, c6);
                    lemma_skip_skip(b4, n4, n5 + c6);
                    lemma_skip_skip(b3, n3, n4 + (n5 + c6));
                    lemma_skip_skip(b2, n2, n3 + (n4 + (n5 + c6)));
                    lemma_skip_skip(b1, n1, n2 + (n3 + (n4 + (n5 + c6))));
                    lemma_skip_skip(b0, n0, n1 + (n2 + (n3 + (n4 + (n5 + c6)))));
                }
                return Err(e);
            },
        };
        proof {
            H::lemma_decode_wf(stream@);
        }
        let ghost b7 = stream@;
        let v7 = match H::read_sync(stream) {
            Ok(v) => v,
            Err(e) => {
                proof {
                    let n0 = (b0.len() - b1.len()) as nat;
                    let n1 = (b1.len() - b2.len()) as nat;
                    let n2 = (b2.len() - b3.len()) as nat;
                    let n3 = (b3.len() - b4.len()) as nat;
                    let n4 = (b4.len() - b5.len()) as nat;
                    let n5 = (b5.len() - b6.len()) as nat;
                    let n6 = (b6.len() - b7.len()) as nat;
                    let c7 = H::spec_error_consumed(b7);
                    lemma_skip_skip(b6, n6, c7);
                    lemma_skip_skip(b5, n5, n6 + c7);
                    lemma_skip_skip(b4, n4, n5 + (n6 + c7));
                    lemma_skip_skip(b3, n3, n4 + (n5 + (n6 + c7)));
                    lemma_skip_skip(b2, n2, n3 + (n4 + (n5 + (n6 + c7))));
                    lemma_skip_skip(b1, n1, n2 + (n3 + (n4 + (n5 + (n6 + c7)))));
                    lemma_skip_skip(b0, n0, n1 + (n2 + (n3 + (n4 + (n5 + (n6 + c7))))));
                }
                return Err(e);
            },
        };
        proof {
            let n6 = (b6.len() - b7.len()) as nat;
            let n5 = (b5.len() - b6.len()) as nat;
            let n4 = (b4.len() - b5.len()) as nat;
            let n3 = (b3.len() - b4.len()) as nat;
            let n2 = (b2.len() - b3.len()) as nat;
            let n1 = (b1.len() - b2.len()) as nat;
            let n0 = (b0.len() - b1.len()) as nat;
            let n7 = (b7.len() - stream@.len()) as nat;
            lemma_skip_skip(b6, n6, n7);
            lemma_skip_skip(b5, n5, n6 + n7);
            lemma_skip_skip(b4, n4, n5 + (n6 + n7));
            lemma_skip_skip(b3, n3, n4 + (n5 + (n6 + n7)));
            lemma_skip_skip(b2, n2, n3 + (n4 + (n5 + (n6 + n7))));
            lemma_skip_skip(b1, n1, n2 + (n3 + (n4 + (n5 + (n6 + n7)))));
            lemma_skip_skip(b0, n0, n1 + (n2 + (n3 + (n4 + (n5 + (n6 + n7))))));
        }
        Ok((v0, v1, v2, v3, v4, v5, v6, v7))
    }

    #[verifier::spinoff_prover]
    #[verifier::rlimit(40)]
    fn write_sync(&self, sink: &mut Vec<u8>) -> (r: Result<(), WriteError>) {
        let _ = self.0.write_sync(sink);
        let _ = self.1.write_sync(sink);
        let _ = self.2.write_sync(sink);
        let _ = self.3.write_sync(sink);
        let _ = self.4.write_sync(sink);
        let _ = self.5.write_sync(sink);
        let _ = self.6.write_sync(sink);
        let _ = self.7.write_sync(sink);
        assert(final(sink)@ =~= old(sink)@ + Self::spec_encode(self.model()));
        Ok(())
    }
}

impl<A: Canonical, B: Canonical, C: Canonical, D: Canonical, E: Canonical, F: Canonical, G: Canonical, H: Canonical> Canonical for (A, B, C, D, E, F, G, H) {
    proof fn lemma_decode_encode(input: Seq<u8>) {
        A::lemma_decode_wf(input);
        A::lemma_decode_encode(input);
        if let Ok((x0, n0)) = A::spec_decode(input) {
            let s1 = input.skip(n0 as int);
            B::lemma_decode_wf(s1);
            B::lemma_decode_encode(s1);
            if let Ok((x1, n1)) = B::spec_decode(s1) {
                let s2 = s1.skip(n1 as int);
                C::lemma_decode_wf(s2);
                C::lemma_decode_encode(s2);
                if let Ok((x2, n2)) = C::spec_decode(s2) {
                    let s3 = s2.skip(n2 as int);
                    D::lemma_decode_wf(s3);
                    D::lemma_decode_encode(s3);
                    if let Ok((x3, n3)) = D::spec_decode(s3) {
                        let s4 = s3.skip(n3 as int);
                        E::lemma_decode_wf(s4);
                        E::lemma_decode_encode(s4);
                        if let Ok((x4, n4)) = E::spec_decode(s4) {
                            let s5 = s4.skip(n4 as int);
                            F::lemma_decode_wf(s5);
                            F::lemma_decode_encode(s5);
                            if let Ok((x5, n5)) = F::spec_decode(s5) {
                                let s6 = s5.skip(n5 as int);
                                G::lemma_decode_wf(s6);
                                G::lemma_decode_encode(s6);
                                if let Ok((x6, n6)) = G::spec_decode(s6) {
                                    let s7 = s6.skip(n6 as int);
                                    H::lemma_decode_wf(s7);
                                    H::lemma_decode_encode(s7);
                                    if let Ok((x7, n7)) = H::spec_decode(s7) {
                                        lemma_take_split(s6, n6, n7);
                                        lemma_take_split(s5, n5, n6 + n7);
                                        lemma_take_split(s4, n4, n5 + (n6 + n7));
                                        lemma_take_split(s3, n3, n4 + (n5 + (n6 + n7)));
                                        lemma_take_split(s2, n2, n3 + (n4 + (n5 + (n6 + n7))));
                                        lemma_take_split(s1, n1, n2 + (n3 + (n4 + (n5 + (n6 + n7)))));
                                        lemma_take_split(input, n0, n1 + (n2 + (n3 + (n4 + (n5 + (n6 + n7))))));
                                    }
                                }
                            }
                        }
                    }
                }
            }
        }
    }
}

/// A tuple of 9 components is represented by the representations of its components, in order.
impl<A: Protocol, B: Protocol, C: Protocol, D: Protocol, E: Protocol, F: Protocol, G: Protocol, H: Protocol, I: Protocol> Protocol for (A, B, C, D, E, F, G, H, I) {
    type Model = (A::Model, B::Model, C::Model, D::Model, E::Model, F::Model, G::Model, H::Model, I::Model);

    open spec fn model(&self) -> (A::Model, B::Model, C::Model, D::Model, E::Model, F::Model, G::Model, H::Model, I::Model) {
        (self.0.model(), self.1.model(), self.2.model(), self.3.model(), self.4.model(), self.5.model(), self.6.model(), self.7.model(), self.8.model())
    }

    open spec fn wf_model(m: (A::Model, B::Model, C::Model, D::Model, E::Model, F::Model, G::Model, H::Model, I::Model)) -> bool {
        A::wf_model(m.0) && B::wf_model(m.1) && C::wf_model(m.2) && D::wf_model(m.3) && E::wf_model(m.4) && F::wf_model(m.5) && G::wf_model(m.6) && H::wf_model(m.7) && I::wf_model(m.8)
    }

    open spec fn spec_encode(m: (A::Model, B::Model, C::Model, D::Model, E::Model, F::Model, G::Model, H::Model, I::Model)) -> Seq<u8> {
        A::spec_encode(m.0) + (B::spec_encode(m.1) + (C::spec_encode(m.2) + (D::spec_encode(m.3) + (E::spec_encode(m.4) + (F::spec_encode(m.5) + (G::spec_encode(m.6) + (H::spec_encode(m.7) + I::spec_encode(m.8))))))))
    }

    open spec fn spec_decode(input: Seq<u8>) -> Result<((A::Model, B::Model, C::Model, D::Model, E::Model, F::Model, G::Model, H::Model, I::Model), nat), ReadError> {
        match A::spec_decode(input) {
            Err(e) => Err(e),
            Ok((x0, n0)) => {
                let s1 = input.skip(n0 as int);
                match B::spec_decode(s1) {
                    Err(e) => Err(e),
                    Ok((x1, n1)) => {
                        let s2 = s1.skip(n1 as int);
                        match C::spec_decode(s2) {
                            Err(e) => Err(e),
                            Ok((x2, n2)) => {
                                let s3 = s2.skip(n2 as int);
                                match D::spec_decode(s3) {
                                    Err(e) => Err(e),
                                    Ok((x3, n3)) => {
                                        let s4 = s3.skip(n3 as int);
                                        match E::spec_decode(s4) {
                                            Err(e) => Err(e),
                                            Ok((x4, n4)) => {
                                                let s5 = s4.skip(n4 as int);
                                                match F::spec_decode(s5) {
                                                    Err(e) => Err(e),
                                                    Ok((x5, n5)) => {
                                                        let s6 = s5.skip(n5 as int);
                                                        match G::spec_decode(s6) {
                                                            Err(e) => Err(e),
                                                            Ok((x6, n6)) => {
                                                                let s7 = s6.skip(n6 as int);
                                                                match H::spec_decode(s7) {
                                                                    Err(e) => Err(e),
                                                                    Ok((x7, n7)) => {
                                                                        let s8 = s7.skip(n7 as int);
                                                                        match I::spec_decode(s8) {
                                                                            Err(e) => Err(e),
                                                                            Ok((x8, n8)) => Ok(((x0, x1, x2, x3, x4, x5, x6, x7, x8), n0 + (n1 + (n2 + (n3 + (n4 + (n5 + (n6 + (n7 + n8))))))))),
                                                                        }
                                                                    },
                                                                }
                                                            },
                                                        }
                                                    },
                                                }
                                            },
                                        }
                                    },
                                }
                            },
                        }
                    },
                }
            },
        }
    }

    open spec fn spec_error_consumed(input: Seq<u8>) -> nat {
        match A::spec_decode(input) {
            Err(_) => A::spec_error_consumed(input),
            Ok((x0, n0)) => {
                let s1 = input.skip(n0 as int);
                n0 + match B::spec_decode(s1) {
                    Err(_) => B::spec_error_consumed(s1),
                    Ok((x1, n1)) => {
                        let s2 = s1.skip(n1 as int);
                        n1 + match C::spec_decode(s2) {
                            Err(_) => C::spec_error_consumed(s2),
                            Ok((x2, n2)) => {
                                let s3 = s2.skip(n2 as int);
                                n2 + match D::spec_decode(s3) {
                                    Err(_) => D::spec_error_consumed(s3),
                                    Ok((x3, n3)) => {
                                        let s4 = s3.skip(n3 as int);
                                        n3 + match E::spec_decode(s4) {
                                            Err(_) => E::spec_error_consumed(s4),
                                            Ok((x4, n4)) => {
                                                let s5 = s4.skip(n4 as int);
                                                n4 + match F::spec_decode(s5) {
                                                    Err(_) => F::spec_error_consumed(s5),
                                                    Ok((x5, n5)) => {
                                                        let s6 = s5.skip(n5 as int);
                                                        n5 + match G::spec_decode(s6) {
                                                            Err(_) => G::spec_error_consumed(s6),
                                                            Ok((x6, n6)) => {
                                                                let s7 = s6.skip(n6 as int);
                                                                n6 + match H::spec_decode(s7) {
                                                                    Err(_) => H::spec_error_consumed(s7),
                                                                    Ok((x7, n7)) => {
                                                                        let s8 = s7.skip(n7 as int);
                                                                        n7 + I::spec_error_consumed(s8)
                                                                    },
                                                                }
                                                            },
                                                        }
                                                    },
                                                }
                                            },
                                        }
                                    },
                                }
                            },
                        }
                    },
                }
            },
        }
    }

    proof fn lemma_encode_decode(m: (A::Model, B::Model, C::Model, D::Model, E::Model, F::Model, G::Model, H::Model, I::Model), rest: Seq<u8>) {
        let e = Self::spec_encode(m);
        let t0 = B::spec_encode(m.1) + (C::spec_encode(m.2) + (D::spec_encode(m.3) + (E::spec_encode(m.4) + (F::spec_encode(m.5) + (G::spec_encode(m.6) + (H::spec_encode(m.7) + (I::spec_encode(m.8) + rest)))))));
        let t1 = C::spec_encode(m.2) + (D::spec_encode(m.3) + (E::spec_encode(m.4) + (F::spec_encode(m.5) + (G::spec_encode(m.6) + (H::spec_encode(m.7) + (I::spec_encode(m.8) + rest))))));
        let t2 = D::spec_encode(m.3) + (E::spec_encode(m.4) + (F::spec_encode(m.5) + (G::spec_encode(m.6) + (H::spec_encode(m.7) + (I::spec_encode(m.8) + rest)))));
        let t3 = E::spec_encode(m.4) + (F::spec_encode(m.5) + (G::spec_encode(m.6) + (H::spec_encode(m.7) + (I::spec_encode(m.8) + rest))));
        let t4 = F::spec_encode(m.5) + (G::spec_encode(m.6) + (H::spec_encode(m.7) + (I::spec_encode(m.8) + rest)));
        let t5 = G::spec_encode(m.6) + (H::spec_encode(m.7) + (I::spec_encode(m.8) + rest));
        let t6 = H::spec_encode(m.7) + (I::spec_encode(m.8) + rest);
        let t7 = I::spec_encode(m.8) + rest;
        let t8 = rest;
        assert(e + rest =~= A::spec_encode(m.0) + t0);
        A::lemma_encode_decode(m.0, t0);
        lemma_skip_prefix(A::spec_encode(m.0), t0);
        B::lemma_encode_decode(m.1, t1);
        lemma_skip_prefix(B::spec_encode(m.1), t1);
        C::lemma_encode_decode(m.2, t2);
        lemma_skip_prefix(C::spec_encode(m.2), t2);
        D::lemma_encode_decode(m.3, t3);
        lemma_skip_prefix(D::spec_encode(m.3), t3);
        E::lemma_encode_decode(m.4, t4);
        lemma_skip_prefix(E::spec_encode(m.4), t4);
        F::lemma_encode_decode(m.5, t5);
        lemma_skip_prefix(F::spec_encode(m.5), t5);
        G::lemma_encode_decode(m.6, t6);
        lemma_skip_prefix(G::spec_encode(m.6), t6);
        H::lemma_encode_decode(m.7, t7);
        lemma_skip_prefix(H::spec_encode(m.7), t7);
        I::lemma_encode_decode(m.8, t8);
    }

    proof fn lemma_truncated(m: (A::Model, B::Model, C::Model, D::Model, E::Model, F::Model, G::Model, H::Model, I::Model), k: nat) {
        if k < Self::spec_encode(m).len() {
            lemma_truncated_step::<A>(m.0, B::spec_encode(m.1) + (C::spec_encode(m.2) + (D::spec_encode(m.3) + (E::spec_encode(m.4) + (F::spec_encode(m.5) + (G::spec_encode(m.6) + (H::spec_encode(m.7) + I::spec_encode(m.8))))))), k);
            if k >= A::spec_encode(m.0).len() {
                let k1 = (k - A::spec_encode(m.0).len()) as nat;
                lemma_truncated_step::<B>(m.1, C::spec_encode(m.2) + (D::spec_encode(m.3) + (E::spec_encode(m.4) + (F::spec_encode(m.5) + (G::spec_encode(m.6) + (H::spec_encode(m.7) + I::spec_encode(m.8)))))), k1);
                if k1 >= B::spec_encode(m.1).len() {
                    let k2 = (k1 - B::spec_encode(m.1).len()) as nat;
                    lemma_truncated_step::<C>(m.2, D::spec_encode(m.3) + (E::spec_encode(m.4) + (F::spec_encode(m.5) + (G::spec_encode(m.6) + (H::spec_encode(m.7) + I::spec_encode(m.8))))), k2);
                    if k2 >= C::spec_encode(m.2).len() {
                        let k3 = (k2 - C::spec_encode(m.2).len()) as nat;
                        lemma_truncated_step::<D>(m.3, E::spec_encode(m.4) + (F::spec_encode(m.5) + (G::spec_encode(m.6) + (H::spec_encode(m.7) + I::spec_encode(m.8)))), k3);
                        if k3 >= D::spec_encode(m.3).len() {
                            let k4 = (k3 - D::spec_encode(m.3).len()) as nat;
                            lemma_truncated_step::<E>(m.4, F::spec_encode(m.5) + (G::spec_encode(m.6) + (H::spec_encode(m.7) + I::spec_encode(m.8))), k4);
                            if k4 >= E::spec_encode(m.4).len() {
                                let k5 = (k4 - E::spec_encode(m.4).len()) as nat;
                                lemma_truncated_step::<F>(m.5, G::spec_encode(m.6) + (H::spec_encode(m.7) + I::spec_encode(m.8)), k5);
                                if k5 >= F::spec_encode(m.5).len() {
                                    let k6 = (k5 - F::spec_encode(m.5).len()) as nat;
                                    lemma_truncated_step::<G>(m.6, H::spec_encode(m.7) + I::spec_encode(m.8), k6);
                                    if k6 >= G::spec_encode(m.6).len() {
                                        let k7 = (k6 - G::spec_encode(m.6).len()) as nat;
                                        lemma_truncated_step::<H>(m.7, I::spec_encode(m.8), k7);
                                        if k7 >= H::spec_encode(m.7).len() {
                                            let k8 = (k7 - H::spec_encode(m.7).len()) as nat;
                                            I::lemma_truncated(m.8, k8);
                                        }
                                    }
                                }
                            }
                        }
                    }
                }
            }
        }
    }

    proof fn lemma_decode_wf(input: Seq<u8>) {
        A::lemma_decode_wf(input);
        if let Ok((x0, n0)) = A::spec_decode(input) {
            let s1 = input.skip(n0 as int);
            B::lemma_decode_wf(s1);
            if let Ok((x1, n1)) = B::spec_decode(s1) {
                let s2 = s1.skip(n1 as int);
                C::lemma_decode_wf(s2);
                if let Ok((x2, n2)) = C::spec_decode(s2) {
                    let s3 = s2.skip(n2 as int);
                    D::lemma_decode_wf(s3);
                    if let Ok((x3, n3)) = D::spec_decode(s3) {
                        let s4 = s3.skip(n3 as int);
                        E::lemma_decode_wf(s4);
                        if let Ok((x4, n4)) = E::spec_decode(s4) {
                            let s5 = s4.skip(n4 as int);
                            F::lemma_decode_wf(s5);
                            if let Ok((x5, n5)) = F::spec_decode(s5) {
                                let s6 = s5.skip(n5 as int);
                                G::lemma_decode_wf(s6);
                                if let Ok((x6, n6)) = G::spec_decode(s6) {
                                    let s7 = s6.skip(n6 as int);
                                    H::lemma_decode_wf(s7);
                                    if let Ok((x7, n7)) = H::spec_decode(s7) {
                                        let s8 = s7.skip(n7 as int);
                                        I::lemma_decode_wf(s8);
                                    }
                                }
                            }
                        }
                    }
                }
            }
        }
    }

    #[verifier::spinoff_prover]
    #[verifier::rlimit(40)]
    fn read_sync(stream: &mut Reader) -> (r: Result<(A, B, C, D, E, F, G, H, I), ReadError>) {
        proof {
            A::lemma_decode_wf(stream@);
        }
        let ghost b0 = stream@;
        let v0 = match A::read_sync(stream) {
            Ok(v) => v,
            Err(e) => return Err(e),
        };
        proof {
            B::lemma_decode_wf(stream@);
        }
        let ghost b1 = stream@;
        let v1 = match B::read_sync(stream) {
            Ok(v) => v,
            Err(e) => {
                proof {
                    let n0 = (b0.len() - b1.len()) as nat;
                    let c1 = B::spec_error_consumed(b1);
                    lemma_skip_skip(b0, n0, c1);
                }
                return Err(e);
            },
        };
        proof {
            C::lemma_decode_wf(stream@);
        }
        let ghost b2 = stream@;
        let v2 = match C::read_sync(stream) {
            Ok(v) => v,
            Err(e) => {
                proof {
                    let n0 = (b0.len() - b1.len()) as nat;
                    let n1 = (b1.len() - b2.len()) as nat;
                    let c2 = C::spec_error_consumed(b2);
                    lemma_skip_skip(b1, n1, c2);
                    lemma_skip_skip(b0, n0, n1 + c2);
                }
                return Err(e);
            },
        };
        proof {
            D::lemma_decode_wf(stream@);
        }
        let ghost b3 = stream@;
        let v3 = match D::read_sync(stream) {
            Ok(v) => v,
            Err(e) => {
                proof {
                    let n0 = (b0.len() - b1.len()) as nat;
                    let n1 = (b1.len() - b2.len()) as nat;
                    let n2 = (b2.len() - b3.len()) as nat;
                    let c3 = D::spec_error_consumed(b3);
                    lemma_skip_skip(b2, n2, c3);
                    lemma_skip_skip(b1, n1, n2 + c3);
                    lemma_skip_skip(b0, n0, n1 + (n2 + c3));
                }
                return Err(e);
            },
        };
        proof {
            E::lemma_decode_wf(stream@);
        }
        let ghost b4 = stream@;
        let v4 = match E::read_sync(stream) {
            Ok(v) => v,
            Err(e) => {
                proof {
                    let n0 = (b0.len() - b1.len()) as nat;
                    let n1 = (b1.len() - b2.len()) as nat;
                    let n2 = (b2.len() - b3.len()) as nat;
                    let n3 = (b3.len() - b4.len()) as nat;
                    let c4 = E::spec_error_consumed(b4);
                    lemma_skip_skip(b3, n3, c4);
                    lemma_skip_skip(b2, n2, n3 + c4);
                    lemma_skip_skip(b1, n1, n2 + (n3 + c4));
                    lemma_skip_skip(b0, n0, n1 + (n2 + (n3 + c4)));
                }
                return Err(e);
            },
        };
        proof {
            F::lemma_decode_wf(stream@);
        }
        let ghost b5 = stream@;
        let v5 = match F::read_sync(stream) {
            Ok(v) => v,
            Err(e) => {
                proof {
                    let n0 = (b0.len() - b1.len()) as nat;
                    let n1 = (b1.len() - b2.len()) as nat;
                    let n2 = (b2.len() - b3.len()) as nat;
                    let n3 = (b3.len() - b4.len()) as nat;
                    let n4 = (b4.len() - b5.len()) as nat;
                    let c5 = F::spec_error_consumed(b5);
                    lemma_skip_skip(b4, n4, c5);
                    lemma_skip_skip(b3, n3, n4 + c5);
                    lemma_skip_skip(b2, n2, n3 + (n4 + c5));
                    lemma_skip_skip(b1, n1, n2 + (n3 + (n4 + c5)));
                    lemma_skip_skip(b0, n0, n1 + (n2 + (n3 + (n4 + c5))));
                }
                return Err(e);
            },
        };
        proof {
            G::lemma_decode_wf(stream@);
        }
        let ghost b6 = stream@;
        let v6 = match G::read_sync(stream) {
            Ok(v) => v,
            Err(e) => {
                proof {
                    let n0 = (b0.len() - b1.len()) as nat;
                    let n1 = (b1.len() - b2.len()) as nat;
                    let n2 = (b2.len() - b3.len()) as nat;
                    let n3 = (b3.len() - b4.len()) as nat;
                    let n4 = (b4.len() - b5.len()) as nat;
                    let n5 = (b5.len() - b6.len()) as nat;
                    let c6 = G::spec_error_consumed(b6);
                    lemma_skip_skip(b5, n5, c6);
                    lemma_skip_skip(b4, n4, n5 + c6);
                    lemma_skip_skip(b3, n3, n4 + (n5 + c6));
                    lemma_skip_skip(b2, n2, n3 + (n4 + (n5 + c6)));
                    lemma_skip_skip(b1, n1, n2 + (n3 + (n4 + (n5 + c6))));
                    lemma_skip_skip(b0, n0, n1 + (n2 + (n3 + (n4 + (n5 + c6)))));
                }
                return Err(e);
            },
        };
        proof {
            H::lemma_decode_wf(stream@);
        }
        let ghost b7 = stream@;
        let v7 = match H::read_sync(stream) {
            Ok(v) => v,
            Err(e) => {
                proof {
                    let n0 = (b0.len() - b1.len()) as nat;
                    let n1 = (b1.len() - b2.len()) as nat;
                    let n2 = (b2.len() - b3.len()) as nat;
                    let n3 = (b3.len() - b4.len()) as nat;
                    let n4 = (b4.len() - b5.len()) as nat;
                    let n5 = (b5.len() - b6.len()) as nat;
                    let n6 = (b6.len() - b7.len()) as nat;
                    let c7 = H::spec_error_consumed(b7);
                    lemma_skip_skip(b6, n6, c7);
                    lemma_skip_skip(b5, n5, n6 + c7);
                    lemma_skip_skip(b4, n4, n5 + (n6 + c7));
                    lemma_skip_skip(b3, n3, n4 + (n5 + (n6 + c7)));
                    lemma_skip_skip(b2, n2, n3 + (n4 + (n5 + (n6 + c7))));
                    lemma_skip_skip(b1, n1, n2 + (n3 + (n4 + (n5 + (n6 + c7)))));
                    lemma_skip_skip(b0, n0, n1 + (n2 + (n3 + (n4 + (n5 + (n6 + c7))))));
                }
                return Err(e);
            },
        };
        proof {
            I::lemma_decode_wf(stream@);
        }
        let ghost b8 = stream@;
        let v8 = match I::read_sync(stream) {
            Ok(v) => v,
            Err(e) => {
                proof {
                    let n0 = (b0.len() - b1.len()) as nat;
                    let n1 = (b1.len() - b2.len()) as nat;
                    let n2 = (b2.len() - b3.len()) as nat;
                    let n3 = (b3.len() - b4.len()) as nat;
                    let n4 = (b4.len() - b5.len()) as nat;
                    let n5 = (b5.len() - b6.len()) as nat;
                    let n6 = (b6.len() - b7.len()) as nat;
                    let n7 = (b7.len() - b8.len()) as nat;
                    let c8 = I::spec_error_consumed(b8);
                    lemma_skip_skip(b7, n7, c8);
                    lemma_skip_skip(b6, n6, n7 + c8);
                    lemma_skip_skip(b5, n5, n6 + (n7 + c8));
                    lemma_skip_skip(b4, n4, n5 + (n6 + (n7 + c8)));
                    lemma_skip_skip(b3, n3, n4 + (n5 + (n6 + (n7 + c8))));
                    lemma_skip_skip(b2, n2, n3 + (n4 + (n5 + (n6 + (n7 + c8)))));
                    lemma_skip_skip(b1, n1, n2 + (n3 + (n4 + (n5 + (n6 + (n7 + c8))))));
                    lemma_skip_skip(b0, n0, n1 + (n2 + (n3 + (n4 + (n5 + (n6 + (n7 + c8)))))));
                }
                return Err(e);
            },
        };
        proof {
            let n7 = (b7.len() - b8.len()) as nat;
            let n6 = (b6.len() - b7.len()) as nat;
            let n5 = (b5.len() - b6.len()) as nat;
            let n4 = (b4.len() - b5.len()) as nat;
            let n3 = (b3.len() - b4.len()) as nat;
            let n2 = (b2.len() - b3.len()) as nat;
            let n1 = (b1.len() - b2.len()) as nat;
            let n0 = (b0.len() - b1.len()) as nat;
            let n8 = (b8.len() - stream@.len()) as nat;
            lemma_skip_skip(b7, n7, n8);
            lemma_skip_skip(b6, n6, n7 + n8);
            lemma_skip_skip(b5, n5, n6 + (n7 + n8));
            lemma_skip_skip(b4, n4, n5 + (n6 + (n7 + n8)));
            lemma_skip_skip(b3, n3, n4 + (n5 + (n6 + (n7 + n8))));
            lemma_skip_skip(b2, n2, n3 + (n4 + (n5 + (n6 + (n7 + n8)))));
            lemma_skip_skip(b1, n1, n2 + (n3 + (n4 + (n5 + (n6 + (n7 + n8))))));
            lemma_skip_skip(b0, n0, n1 + (n2 + (n3 + (n4 + (n5 + (n6 + (n7 + n8)))))));
        }
        Ok((v0, v1, v2, v3, v4, v5, v6, v7, v8))
    }

    #[verifier::spinoff_prover]
    #[verifier::rlimit(40)]
    fn write_sync(&self, sink: &mut Vec<u8>) -> (r: Result<(), WriteError>) {
        let _ = self.0.write_sync(sink);
        let _ = self.1.write_sync(sink);
        let _ = self.2.write_sync(sink);
        let _ = self.3.write_sync(sink);
        let _ = self.4.write_sync(sink);
        let _ = self.5.write_sync(sink);
        let _ = self.6.write_sync(sink);
        let _ = self.7.write_sync(sink);
        let _ = self.8.write_sync(sink);
        assert(final(sink)@ =~= old(sink)@ + Self::spec_encode(self.model()));
        Ok(())
    }
}

impl<A: Canonical, B: Canonical, C: Canonical, D: Canonical, E: Canonical, F: Canonical, G: Canonical, H: Canonical, I: Canonical> Canonical for (A, B, C, D, E, F, G, H, I) {
    proof fn lemma_decode_encode(input: Seq<u8>) {
        A::lemma_decode_wf(input);
        A::lemma_decode_encode(input);
        if let Ok((x0, n0)) = A::spec_decode(input) {
            let s1 = input.skip(n0 as int);
            B::lemma_decode_wf(s1);
            B::lemma_decode_encode(s1);
            if let Ok((x1, n1)) = B::spec_decode(s1) {
                let s2 = s1.skip(n1 as int);
                C::lemma_decode_wf(s2);
                C::lemma_decode_encode(s2);
                if let Ok((x2, n2)) = C::spec_decode(s2) {
                    let s3 = s2.skip(n2 as int);
                    D::lemma_decode_wf(s3);
                    D::lemma_decode_encode(s3);
                    if let Ok((x3, n3)) = D::spec_decode(s3) {
                        let s4 = s3.skip(n3 as int);
                        E::lemma_decode_wf(s4);
                        E::lemma_decode_encode(s4);
                        if let Ok((x4, n4)) = E::spec_decode(s4) {
                            let s5 = s4.skip(n4 as int);
                            F::lemma_decode_wf(s5);
                            F::lemma_decode_encode(s5);
                            if let Ok((x5, n5)) = F::spec_decode(s5) {
                                let s6 = s5.skip(n5 as int);
                                G::lemma_decode_wf(s6);
                                G::lemma_decode_encode(s6);
                                if let Ok((x6, n6)) = G::spec_decode(s6) {
                                    let s7 = s6.skip(n6 as int);
                                    H::lemma_decode_wf(s7);
                                    H::lemma_decode_encode(s7);
                                    if let Ok((x7, n7)) = H::spec_decode(s7) {
                                        let s8 = s7.skip(n7 as int);
                                        I::lemma_decode_wf(s8);
                                        I::lemma_decode_encode(s8);
                                        if let Ok((x8, n8)) = I::spec_decode(s8) {
                                            lemma_take_split(s7, n7, n8);
                                            lemma_take_split(s6, n6, n7 + n8);
                                            lemma_take_split(s5, n5, n6 + (n7 + n8));
                                            lemma_take_split(s4, n4, n5 + (n6 + (n7 + n8)));
                                            lemma_take_split(s3, n3, n4 + (n5 + (n6 + (n7 + n8))));
                                            lemma_take_split(s2, n2, n3 + (n4 + (n5 + (n6 + (n7 + n8)))));
                                            lemma_take_split(s1, n1, n2 + (n3 + (n4 + (n5 + (n6 + (n7 + n8))))));
                                            lemma_take_split(input, n0, n1 + (n2 + (n3 + (n4 + (n5 + (n6 + (n7 + n8)))))));
                                        }
                                    }
                                }
                            }
                        }
                    }
                }
            }
        }
    }
}

/// A tuple of 10 components is represented by the representations of its components, in order.
impl<A: Protocol, B: Protocol, C: Protocol, D: Protocol, E: Protocol, F: Protocol, G: Protocol, H: Protocol, I: Protocol, J: Protocol> Protocol for (A, B, C, D, E, F, G, H, I, J) {
    type Model = (A::Model, B::Model, C::Model, D::Model, E::Model, F::Model, G::Model, H::Model, I::Model, J::Model);

    open spec fn model(&self) -> (A::Model, B::Model, C::Model, D::Model, E::Model, F::Model, G::Model, H::Model, I::Model, J::Model) {
        (self.0.model(), self.1.model(), self.2.model(), self.3.model(), self.4.model(), self.5.model(), self.6.model(), self.7.model(), self.8.model(), self.9.model())
    }

    open spec fn wf_model(m: (A::Model, B::Model, C::Model, D::Model, E::Model, F::Model, G::Model, H::Model, I::Model, J::Model)) -> bool {
        A::wf_model(m.0) && B::wf_model(m.1) && C::wf_model(m.2) && D::wf_model(m.3) && E::wf_model(m.4) && F::wf_model(m.5) && G::wf_model(m.6) && H::wf_model(m.7) && I::wf_model(m.8) && J::wf_model(m.9)
    }

    open spec fn spec_encode(m: (A::Model, B::Model, C::Model, D::Model, E::Model, F::Model, G::Model, H::Model, I::Model, J::Model)) -> Seq<u8> {
        A::spec_encode(m.0) + (B::spec_encode(m.1) + (C::spec_encode(m.2) + (D::spec_encode(m.3) + (E::spec_encode(m.4) + (F::spec_encode(m.5) + (G::spec_encode(m.6) + (H::spec_encode(m.7) + (I::spec_encode(m.8) + J::spec_encode(m.9)))))))))
    }

    open spec fn spec_decode(input: Seq<u8>) -> Result<((A::Model, B::Model, C::Model, D::Model, E::Model, F::Model, G::Model, H::Model, I::Model, J::Model), nat), ReadError> {
        match A::spec_decode(input) {
            Err(e) => Err(e),
            Ok((x0, n0)) => {
                let s1 = input.skip(n0 as int);
                match B::spec_decode(s1) {
                    Err(e) => Err(e),
                    Ok((x1, n1)) => {
                        let s2 = s1.skip(n1 as int);
                        match C::spec_decode(s2) {
                            Err(e) => Err(e),
                            Ok((x2, n2)) => {
                                let s3 = s2.skip(n2 as int);
                                match D::spec_decode(s3) {
                                    Err(e) => Err(e),
                                    Ok((x3, n3)) => {
                                        let s4 = s3.skip(n3 as int);
                                        match E::spec_decode(s4) {
                                            Err(e) => Err(e),
                                            Ok((x4, n4)) => {
                                                let s5 = s4.skip(n4 as int);
                                                match F::spec_decode(s5) {
                                                    Err(e) => Err(e),
                                                    Ok((x5, n5)) => {
                                                        let s6 = s5.skip(n5 as int);
                                                        match G::spec_decode(s6) {
                                                            Err(e) => Err(e),
                                                            Ok((x6, n6)) => {
                                                                let s7 = s6.skip(n6 as int);
                                                                match H::spec_decode(s7) {
                                                                    Err(e) => Err(e),
                                                                    Ok((x7, n7)) => {
                                                                        let s8 = s7.skip(n7 as int);
                                                                        match I::spec_decode(s8) {
                                                                            Err(e) => Err(e),
                                                                            Ok((x8, n8)) => {
                                                                                let s9 = s8.skip(n8 as int);
                                                                                match J::spec_decode(s9) {
                                                                                    Err(e) => Err(e),
                                                                                    Ok((x9, n9)) => Ok(((x0, x1, x2, x3, x4, x5, x6, x7, x8, x9), n0 + (n1 + (n2 + (n3 + (n4 + (n5 + (n6 + (n7 + (n8 + n9)))))))))),
                                                                                }
                                                                            },
                                                                        }
                                                                    },
                                                                }
                                                            },
                                                        }
                                                    },
                                                }
                                            },
                                        }
                                    },
                                }
                            },
                        }
                    },
                }
            },
        }
    }

    open spec fn spec_error_consumed(input: Seq<u8>) -> nat {
        match A::spec_decode(input) {
            Err(_) => A::spec_error_consumed(input),
            Ok((x0, n0)) => {
                let s1 = input.skip(n0 as int);
                n0 + match B::spec_decode(s1) {
                    Err(_) => B::spec_error_consumed(s1),
                    Ok((x1, n1)) => {
                        let s2 = s1.skip(n1 as int);
                        n1 + match C::spec_decode(s2) {
                            Err(_) => C::spec_error_consumed(s2),
                            Ok((x2, n2)) => {
                                let s3 = s2.skip(n2 as int);
                                n2 + match D::spec_decode(s3) {
                                    Err(_) => D::spec_error_consumed(s3),
                                    Ok((x3, n3)) => {
                                        let s4 = s3.skip(n3 as int);
                                        n3 + match E::spec_decode(s4) {
                                            Err(_) => E::spec_error_consumed(s4),
                                            Ok((x4, n4)) => {
                                                let s5 = s4.skip(n4 as int);
                                                n4 + match F::spec_decode(s5) {
                                                    Err(_) => F::spec_error_consumed(s5),
                                                    Ok((x5, n5)) => {
                                                        let s6 = s5.skip(n5 as int);
                                                        n5 + match G::spec_decode(s6) {
                                                            Err(_) => G::spec_error_consumed(s6),
                                                            Ok((x6, n6)) => {
                                                                let s7 = s6.skip(n6 as int);
                                                                n6 + match H::spec_decode(s7) {
                                                                    Err(_) => H::spec_error_consumed(s7),
                                                                    Ok((x7, n7)) => {
                                                                        let s8 = s7.skip(n7 as int);
                                                                        n7 + match I::spec_decode(s8) {
                                                                            Err(_) => I::spec_error_consumed(s8),
                                                                            Ok((x8, n8)) => {
                                                                                let s9 = s8.skip(n8 as int);
                                                                                n8 + J::spec_error_consumed(s9)
                                                                            },
                                                                        }
                                                                    },
                                                                }
                                                            },
                                                        }
                                                    },
                                                }
                                            },
                                        }
                                    },
                                }
                            },
                        }
                    },
                }
            },
        }
    }

    proof fn lemma_encode_decode(m: (A::Model, B::Model, C::Model, D::Model, E::Model, F::Model, G::Model, H::Model, I::Model, J::Model), rest: Seq<u8>) {
        let e = Self::spec_encode(m);
        let t0 = B::spec_encode(m.1) + (C::spec_encode(m.2) + (D::spec_encode(m.3) + (E::spec_encode(m.4) + (F::spec_encode(m.5) + (G::spec_encode(m.6) + (H::spec_encode(m.7) + (I::spec_encode(m.8) + (J::spec_encode(m.9) + rest))))))));
        let t1 = C::spec_encode(m.2) + (D::spec_encode(m.3) + (E::spec_encode(m.4) + (F::spec_encode(m.5) + (G::spec_encode(m.6) + (H::spec_encode(m.7) + (I::spec_encode(m.8) + (J::spec_encode(m.9) + rest)))))));
        let t2 = D::spec_encode(m.3) + (E::spec_encode(m.4) + (F::spec_encode(m.5) + (G::spec_encode(m.6) + (H::spec_encode(m.7) + (I::spec_encode(m.8) + (J::spec_encode(m.9) + rest))))));
        let t3 = E::spec_encode(m.4) + (F::spec_encode(m.5) + (G::spec_encode(m.6) + (H::spec_encode(m.7) + (I::spec_encode(m.8) + (J::spec_encode(m.9) + rest)))));
        let t4 = F::spec_encode(m.5) + (G::spec_encode(m.6) + (H::spec_encode(m.7) + (I::spec_encode(m.8) + (J::spec_encode(m.9) + rest))));
        let t5 = G::spec_encode(m.6) + (H::spec_encode(m.7) + (I::spec_encode(m.8) + (J::spec_encode(m.9) + rest)));
        let t6 = H::spec_encode(m.7) + (I::spec_encode(m.8) + (J::spec_encode(m.9) + rest));
        let t7 = I::spec_encode(m.8) + (J::spec_encode(m.9) + rest);
        let t8 = J::spec_encode(m.9) + rest;
        let t9 = rest;
        assert(e + rest =~= A::spec_encode(m.0) + t0);
        A::lemma_encode_decode(m.0, t0);
        lemma_skip_prefix(A::spec_encode(m.0), t0);
        B::lemma_encode_decode(m.1, t1);
        lemma_skip_prefix(B::spec_encode(m.1), t1);
        C::lemma_encode_decode(m.2, t2);
        lemma_skip_prefix(C::spec_encode(m.2), t2);
        D::lemma_encode_decode(m.3, t3);
        lemma_skip_prefix(D::spec_encode(m.3), t3);
        E::lemma_encode_decode(m.4, t4);
        lemma_skip_prefix(E::spec_encode(m.4), t4);
        F::lemma_encode_decode(m.5, t5);
        lemma_skip_prefix(F::spec_encode(m.5), t5);
        G::lemma_encode_decode(m.6, t6);
        lemma_skip_prefix(G::spec_encode(m.6), t6);
        H::lemma_encode_decode(m.7, t7);
        lemma_skip_prefix(H::spec_encode(m.7), t7);
        I::lemma_encode_decode(m.8, t8);
        lemma_skip_prefix(I::spec_encode(m.8), t8);
        J::lemma_encode_decode(m.9, t9);
    }

    proof fn lemma_truncated(m: (A::Model, B::Model, C::Model, D::Model, E::Model, F::Model, G::Model, H::Model, I::Model, J::Model), k: nat) {
        if k < Self::spec_encode(m).len() {
            lemma_truncated_step::<A>(m.0, B::spec_encode(m.1) + (C::spec_encode(m.2) + (D::spec_encode(m.3) + (E::spec_encode(m.4) + (F::spec_encode(m.5) + (G::spec_encode(m.6) + (H::spec_encode(m.7) + (I::spec_encode(m.8) + J::spec_encode(m.9)))))))), k);
            if k >= A::spec_encode(m.0).len() {
                let k1 = (k - A::spec_encode(m.0).len()) as nat;
                lemma_truncated_step::<B>(m.1, C::spec_encode(m.2) + (D::spec_encode(m.3) + (E::spec_encode(m.4) + (F::spec_encode(m.5) + (G::spec_encode(m.6) + (H::spec_encode(m.7) + (I::spec_encode(m.8) + J::spec_encode(m.9))))))), k1);
                if k1 >= B::spec_encode(m.1).len() {
                    let k2 = (k1 - B::spec_encode(m.1).len()) as nat;
                    lemma_truncated_step::<C>(m.2, D::spec_encode(m.3) + (E::spec_encode(m.4) + (F::spec_encode(m.5) + (G::spec_encode(m.6) + (H::spec_encode(m.7) + (I::spec_encode(m.8) + J::spec_encode(m.9)))))), k2);
                    if k2 >= C::spec_encode(m.2).len() {
                        let k3 = (k2 - C::spec_encode(m.2).len()) as nat;
                        lemma_truncated_step::<D>(m.3, E::spec_encode(m.4) + (F::spec_encode(m.5) + (G::spec_encode(m.6) + (H::spec_encode(m.7) + (I::spec_encode(m.8) + J::spec_encode(m.9))))), k3);
                        if k3 >= D::spec_encode(m.3).len() {
                            let k4 = (k3 - D::spec_encode(m.3).len()) as nat;
                            lemma_truncated_step::<E>(m.4, F::spec_encode(m.5) + (G::spec_encode(m.6) + (H::spec_encode(m.7) + (I::spec_encode(m.8) + J::spec_encode(m.9)))), k4);
                            if k4 >= E::spec_encode(m.4).len() {
                                let k5 = (k4 - E::spec_encode(m.4).len()) as nat;
                                lemma_truncated_step::<F>(m.5, G::spec_encode(m.6) + (H::spec_encode(m.7) + (I::spec_encode(m.8) + J::spec_encode(m.9))), k5);
                                if k5 >= F::spec_encode(m.5).len() {
                                    let k6 = (k5 - F::spec_encode(m.5).len()) as nat;
                                    lemma_truncated_step::<G>(m.6, H::spec_encode(m.7) + (I::spec_encode(m.8) + J::spec_encode(m.9)), k6);
                                    if k6 >= G::spec_encode(m.6).len() {
                                        let k7 = (k6 - G::spec_encode(m.6).len()) as nat;
                                        lemma_truncated_step::<H>(m.7, I::spec_encode(m.8) + J::spec_encode(m.9), k7);
                                        if k7 >= H::spec_encode(m.7).len() {
                                            let k8 = (k7 - H::spec_encode(m.7).len()) as nat;
                                            lemma_truncated_step::<I>(m.8, J::spec_encode(m.9), k8);
                                            if k8 >= I::spec_encode(m.8).len() {
                                                let k9 = (k8 - I::spec_encode(m.8).len()) as nat;
                                                J::lemma_truncated(m.9, k9);
                                            }
                                        }
                                    }
                                }
                            }
                        }
                    }
                }
            }
        }
    }

    proof fn lemma_decode_wf(input: Seq<u8>) {
        A::lemma_decode_wf(input);
        if let Ok((x0, n0)) = A::spec_decode(input) {
            let s1 = input.skip(n0 as int);
            B::lemma_decode_wf(s1);
            if let Ok((x1, n1)) = B::spec_decode(s1) {
                let s2 = s1.skip(n1 as int);
                C::lemma_decode_wf(s2);
                if let Ok((x2, n2)) = C::spec_decode(s2) {
                    let s3 = s2.skip(n2 as int);
                    D::lemma_decode_wf(s3);
                    if let Ok((x3, n3)) = D::spec_decode(s3) {
                        let s4 = s3.skip(n3 as int);
                        E::lemma_decode_wf(s4);
                        if let Ok((x4, n4)) = E::spec_decode(s4) {
                            let s5 = s4.skip(n4 as int);
                            F::lemma_decode_wf(s5);
                            if let Ok((x5, n5)) = F::spec_decode(s5) {
                                let s6 = s5.skip(n5 as int);
                                G::lemma_decode_wf(s6);
                                if let Ok((x6, n6)) = G::spec_decode(s6) {
                                    let s7 = s6.skip(n6 as int);
                                    H::lemma_decode_wf(s7);
                                    if let Ok((x7, n7)) = H::spec_decode(s7) {
                                        let s8 = s7.skip(n7 as int);
                                        I::lemma_decode_wf(s8);
                                        if let Ok((x8, n8)) = I::spec_decode(s8) {
                                            let s9 = s8.skip(n8 as int);
                                            J::lemma_decode_wf(s9);
                                        }
                                    }
                                }
                            }
                        }
                    }
                }
            }
        }
    }

    #[verifier::spinoff_prover]
    #[verifier::rlimit(40)]
    fn read_sync(stream: &mut Reader) -> (r: Result<(A, B, C, D, E, F, G, H, I, J), ReadError>) {
        proof {
            A::lemma_decode_wf(stream@);
        }
        let ghost b0 = stream@;
        let v0 = match A::read_sync(stream) {
            Ok(v) => v,
            Err(e) => return Err(e),
        };
        proof {
            B::lemma_decode_wf(stream@);
        }
        let ghost b1 = stream@;
        let v1 = match B::read_sync(stream) {
            Ok(v) => v,
            Err(e) => {
                proof {
                    let n0 = (b0.len() - b1.len()) as nat;
                    let c1 = B::spec_error_consumed(b1);
                    lemma_skip_skip(b0, n0, c1);
                }
                return Err(e);
            },
        };
        proof {
            C::lemma_decode_wf(stream@);
        }
        let ghost b2 = stream@;
        let v2 = match C::read_sync(stream) {
            Ok(v) => v,
            Err(e) => {
                proof {
                    let n0 = (b0.len() - b1.len()) as nat;
                    let n1 = (b1.len() - b2.len()) as nat;
                    let c2 = C::spec_error_consumed(b2);
                    lemma_skip_skip(b1, n1, c2);
                    lemma_skip_skip(b0, n0, n1 + c2);
                }
                return Err(e);
            },
        };
        proof {
            D::lemma_decode_wf(stream@);
        }
        let ghost b3 = stream@;
        let v3 = match D::read_sync(stream) {
            Ok(v) => v,
            Err(e) => {
                proof {
                    let n0 = (b0.len() - b1.len()) as nat;
                    let n1 = (b1.len() - b2.len()) as nat;
                    let n2 = (b2.len() - b3.len()) as nat;
                    let c3 = D::spec_error_consumed(b3);
                    lemma_skip_skip(b2, n2, c3);
                    lemma_skip_skip(b1, n1, n2 + c3);
                    lemma_skip_skip(b0, n0, n1 + (n2 + c3));
                }
                return Err(e);
            },
        };
        proof {
            E::lemma_decode_wf(stream@);
        }
        let ghost b4 = stream@;
        let v4 = match E::read_sync(stream) {
            Ok(v) => v,
            Err(e) => {
                proof {
                    let n0 = (b0.len() - b1.len()) as nat;
                    let n1 = (b1.len() - b2.len()) as nat;
                    let n2 = (b2.len() - b3.len()) as nat;
                    let n3 = (b3.len() - b4.len()) as nat;
                    let c4 = E::spec_error_consumed(b4);
                    lemma_skip_skip(b3, n3, c4);
                    lemma_skip_skip(b2, n2, n3 + c4);
                    lemma_skip_skip(b1, n1, n2 + (n3 + c4));
                    lemma_skip_skip(b0, n0, n1 + (n2 + (n3 + c4)));
                }
                return Err(e);
            },
        };
        proof {
            F::lemma_decode_wf(stream@);
        }
        let ghost b5 = stream@;
        let v5 = match F::read_sync(stream) {
            Ok(v) => v,
            Err(e) => {
                proof {
                    let n0 = (b0.len() - b1.len()) as nat;
                    let n1 = (b1.len() - b2.len()) as nat;
                    let n2 = (b2.len() - b3.len()) as nat;
                    let n3 = (b3.len() - b4.len()) as nat;
                    let n4 = (b4.len() - b5.len()) as nat;
                    let c5 = F::spec_error_consumed(b5);
                    lemma_skip_skip(b4, n4, c5);
                    lemma_skip_skip(b3, n3, n4 + c5);
                    lemma_skip_skip(b2, n2, n3 + (n4 + c5));
                    lemma_skip_skip(b1, n1, n2 + (n3 + (n4 + c5)));
                    lemma_skip_skip(b0, n0, n1 + (n2 + (n3 + (n4 + c5))));
                }
                return Err(e);
            },
        };
        proof {
            G::lemma_decode_wf(stream@);
        }
        let ghost b6 = stream@;
        let v6 = match G::read_sync(stream) {
            Ok(v) => v,
            Err(e) => {
                proof {
                    let n0 = (b0.len() - b1.len()) as nat;
                    let n1 = (b1.len() - b2.len()) as nat;
                    let n2 = (b2.len() - b3.len()) as nat;
                    let n3 = (b3.len() - b4.len()) as nat;
                    let n4 = (b4.len() - b5.len()) as nat;
                    let n5 = (b5.len() - b6.len()) as nat;
                    let c6 = G::spec_error_consumed(b6);
                    lemma_skip_skip(b5, n5, c6);
                    lemma_skip_skip(b4, n4, n5 + c6);
                    lemma_skip_skip(b3, n3, n4 + (n5 + c6));
                    lemma_skip_skip(b2, n2, n3 + (n4 + (n5 + c6)));
                    lemma_skip_skip(b1, n1, n2 + (n3 + (n4 + (n5 + c6))));
                    lemma_skip_skip(b0, n0, n1 + (n2 + (n3 + (n4 + (n5 + c6)))));
                }
                return Err(e);
            },
        };
        proof {
            H::lemma_decode_wf(stream@);
        }
        let ghost b7 = stream@;
        let v7 = match H::read_sync(stream) {
            Ok(v) => v,
            Err(e) => {
                proof {
                    let n0 = (b0.len() - b1.len()) as nat;
                    let n1 = (b1.len() - b2.len()) as nat;
                    let n2 = (b2.len() - b3.len()) as nat;
                    let n3 = (b3.len() - b4.len()) as nat;
                    let n4 = (b4.len() - b5.len()) as nat;
                    let n5 = (b5.len() - b6.len()) as nat;
                    let n6 = (b6.len() - b7.len()) as nat;
                    let c7 = H::spec_error_consumed(b7);
                    lemma_skip_skip(b6, n6, c7);
                    lemma_skip_skip(b5, n5, n6 + c7);
                    lemma_skip_skip(b4, n4, n5 + (n6 + c7));
                    lemma_skip_skip(b3, n3, n4 + (n5 + (n6 + c7)));
                    lemma_skip_skip(b2, n2, n3 + (n4 + (n5 + (n6 + c7))));
                    lemma_skip_skip(b1, n1, n2 + (n3 + (n4 + (n5 + (n6 + c7)))));
                    lemma_skip_skip(b0, n0, n1 + (n2 + (n3 + (n4 + (n5 + (n6 + c7))))));
                }
                return Err(e);
            },
        };
        proof {
            I::lemma_decode_wf(stream@);
        }
        let ghost b8 = stream@;
        let v8 = match I::read_sync(stream) {
            Ok(v) => v,
            Err(e) => {
                proof {
                    let n0 = (b0.len() - b1.len()) as nat;
                    let n1 = (b1.len() - b2.len()) as nat;
                    let n2 = (b2.len() - b3.len()) as nat;
                    let n3 = (b3.len() - b4.len()) as nat;
                    let n4 = (b4.len() - b5.len()) as nat;
                    let n5 = (b5.len() - b6.len()) as nat;
                    let n6 = (b6.len() - b7.len()) as nat;
                    let n7 = (b7.len() - b8.len()) as nat;
                    let c8 = I::spec_error_consumed(b8);
                    lemma_skip_skip(b7, n7, c8);
                    lemma_skip_skip(b6, n6, n7 + c8);
                    lemma_skip_skip(b5, n5, n6 + (n7 + c8));
                    lemma_skip_skip(b4, n4, n5 + (n6 + (n7 + c8)));
                    lemma_skip_skip(b3, n3, n4 + (n5 + (n6 + (n7 + c8))));
                    lemma_skip_skip(b2, n2, n3 + (n4 + (n5 + (n6 + (n7 + c8)))));
                    lemma_skip_skip(b1, n1, n2 + (n3 + (n4 + (n5 + (n6 + (n7 + c8))))));
                    lemma_skip_skip(b0, n0, n1 + (n2 + (n3 + (n4 + (n5 + (n6 + (n7 + c8)))))));
                }
                return Err(e);
            },
        };
        proof {
            J::lemma_decode_wf(stream@);
        }
        let ghost b9 = stream@;
        let v9 = match J::read_sync(stream) {
            Ok(v) => v,
            Err(e) => {
                proof {
                    let n0 = (b0.len() - b1.len()) as nat;
                    let n1 = (b1.len() - b2.len()) as nat;
                    let n2 = (b2.len() - b3.len()) as nat;
                    let n3 = (b3.len() - b4.len()) as nat;
                    let n4 = (b4.len() - b5.len()) as nat;
                    let n5 = (b5.len() - b6.len()) as nat;
                    let n6 = (b6.len() - b7.len()) as nat;
                    let n7 = (b7.len() - b8.len()) as nat;
                    let n8 = (b8.len() - b9.len()) as nat;
                    let c9 = J::spec_error_consumed(b9);
                    lemma_skip_skip(b8, n8, c9);
                    lemma_skip_skip(b7, n7, n8 + c9);
                    lemma_skip_skip(b6, n6, n7 + (n8 + c9));
                    lemma_skip_skip(b5, n5, n6 + (n7 + (n8 + c9)));
                    lemma_skip_skip(b4, n4, n5 + (n6 + (n7 + (n8 + c9))));
                    lemma_skip_skip(b3, n3, n4 + (n5 + (n6 + (n7 + (n8 + c9)))));
                    lemma_skip_skip(b2, n2, n3 + (n4 + (n5 + (n6 + (n7 + (n8 + c9))))));
                    lemma_skip_skip(b1, n1, n2 + (n3 + (n4 + (n5 + (n6 + (n7 + (n8 + c9)))))));
                    lemma_skip_skip(b0, n0, n1 + (n2 + (n3 + (n4 + (n5 + (n6 + (n7 + (n8 + c9))))))));
                }
                return Err(e);
            },
        };
        proof {
            let n8 = (b8.len() - b9.len()) as nat;
            let n7 = (b7.len() - b8.len()) as nat;
            let n6 = (b6.len() - b7.len()) as nat;
            let n5 = (b5.len() - b6.len()) as nat;
            let n4 = (b4.len() - b5.len()) as nat;
            let n3 = (b3.len() - b4.len()) as nat;
            let n2 = (b2.len() - b3.len()) as nat;
            let n1 = (b1.len() - b2.len()) as nat;
            let n0 = (b0.len() - b1.len()) as nat;
            let n9 = (b9.len() - stream@.len()) as nat;
            lemma_skip_skip(b8, n8, n9);
            lemma_skip_skip(b7, n7, n8 + n9);
            lemma_skip_skip(b6, n6, n7 + (n8 + n9));
            lemma_skip_skip(b5, n5, n6 + (n7 + (n8 + n9)));
            lemma_skip_skip(b4, n4, n5 + (n6 + (n7 + (n8 + n9))));
            lemma_skip_skip(b3, n3, n4 + (n5 + (n6 + (n7 + (n8 + n9)))));
            lemma_skip_skip(b2, n2, n3 + (n4 + (n5 + (n6 + (n7 + (n8 + n9))))));
            lemma_skip_skip(b1, n1, n2 + (n3 + (n4 + (n5 + (n6 + (n7 + (n8 + n9)))))));
            lemma_skip_skip(b0, n0, n1 + (n2 + (n3 + (n4 + (n5 + (n6 + (n7 + (n8 + n9))))))));
        }
        Ok((v0, v1, v2, v3, v4, v5, v6, v7, v8, v9))
    }

    #[verifier::spinoff_prover]
    #[verifier::rlimit(40)]
    fn write_sync(&self, sink: &mut Vec<u8>) -> (r: Result<(), WriteError>) {
        let _ = self.0.write_sync(sink);
        let _ = self.1.write_sync(sink);
        let _ = self.2.write_sync(sink);
        let _ = self.3.write_sync(sink);
        let _ = self.4.write_sync(sink);
        let _ = self.5.write_sync(sink);
        let _ = self.6.write_sync(sink);
        let _ = self.7.write_sync(sink);
        let _ = self.8.write_sync(sink);
        let _ = self.9.write_sync(sink);
        assert(final(sink)@ =~= old(sink)@ + Self::spec_encode(self.model()));
        Ok(())
    }
}

impl<A: Canonical, B: Canonical, C: Canonical, D: Canonical, E: Canonical, F: Canonical, G: Canonical, H: Canonical, I: Canonical, J: Canonical> Canonical for (A, B, C, D, E, F, G, H, I, J) {
    proof fn lemma_decode_encode(input: Seq<u8>) {
        A::lemma_decode_wf(input);
        A::lemma_decode_encode(input);
        if let Ok((x0, n0)) = A::spec_decode(input) {
            let s1 = input.skip(n0 as int);
            B::lemma_decode_wf(s1);
            B::lemma_decode_encode(s1);
            if let Ok((x1, n1)) = B::spec_decode(s1) {
                let s2 = s1.skip(n1 as int);
                C::lemma_decode_wf(s2);
                C::lemma_decode_encode(s2);
                if let Ok((x2, n2)) = C::spec_decode(s2) {
                    let s3 = s2.skip(n2 as int);
                    D::lemma_decode_wf(s3);
                    D::lemma_decode_encode(s3);
                    if let Ok((x3, n3)) = D::spec_decode(s3) {
                        let s4 = s3.skip(n3 as int);
                        E::lemma_decode_wf(s4);
                        E::lemma_decode_encode(s4);
                        if let Ok((x4, n4)) = E::spec_decode(s4) {
                            let s5 = s4.skip(n4 as int);
                            F::lemma_decode_wf(s5);
                            F::lemma_decode_encode(s5);
                            if let Ok((x5, n5)) = F::spec_decode(s5) {
                                let s6 = s5.skip(n5 as int);
                                G::lemma_decode_wf(s6);
                                G::lemma_decode_encode(s6);
                                if let Ok((x6, n6)) = G::spec_decode(s6) {
                                    let s7 = s6.skip(n6 as int);
                                    H::lemma_decode_wf(s7);
                                    H::lemma_decode_encode(s7);
                                    if let Ok((x7, n7)) = H::spec_decode(s7) {
                                        let s8 = s7.skip(n7 as int);
                                        I::lemma_decode_wf(s8);
                                        I::lemma_decode_encode(s8);
                                        if let Ok((x8, n8)) = I::spec_decode(s8) {
                                            let s9 = s8.skip(n8 as int);
                                            J::lemma_decode_wf(s9);
                                            J::lemma_decode_encode(s9);
                                            if let Ok((x9, n9)) = J::spec_decode(s9) {
                                                lemma_take_split(s8, n8, n9);
                                                lemma_take_split(s7, n7, n8 + n9);
                                                lemma_take_split(s6, n6, n7 + (n8 + n9));
                                                lemma_take_split(s5, n5, n6 + (n7 + (n8 + n9)));
                                                lemma_take_split(s4, n4, n5 + (n6 + (n7 + (n8 + n9))));
                                                lemma_take_split(s3, n3, n4 + (n5 + (n6 + (n7 + (n8 + n9)))));
                                                lemma_take_split(s2, n2, n3 + (n4 + (n5 + (n6 + (n7 + (n8 + n9))))));
                                                lemma_take_split(s1, n1, n2 + (n3 + (n4 + (n5 + (n6 + (n7 + (n8 + n9)))))));
                                                lemma_take_split(input, n0, n1 + (n2 + (n3 + (n4 + (n5 + (n6 + (n7 + (n8 + n9))))))));
                                            }
                                        }
                                    }
                                }
                            }
                        }
                    }
                }
            }
        }
    }
}

/// A tuple of 11 components is represented by the representations of its components, in order.
impl<A: Protocol, B: Protocol, C: Protocol, D: Protocol, E: Protocol, F: Protocol, G: Protocol, H: Protocol, I: Protocol, J: Protocol, K: Protocol> Protocol for (A, B, C, D, E, F, G, H, I, J, K) {
    type Model = (A::Model, B::Model, C::Model, D::Model, E::Model, F::Model, G::Model, H::Model, I::Model, J::Model, K::Model);

    open spec fn model(&self) -> (A::Model, B::Model, C::Model, D::Model, E::Model, F::Model, G::Model, H::Model, I::Model, J::Model, K::Model) {
        (self.0.model(), self.1.model(), self.2.model(), self.3.model(), self.4.model(), self.5.model(), self.6.model(), self.7.model(), self.8.model(), self.9.model(), self.10.model())
    }

    open spec fn wf_model(m: (A::Model, B::Model, C::Model, D::Model, E::Model, F::Model, G::Model, H::Model, I::Model, J::Model, K::Model)) -> bool {
        A::wf_model(m.0) && B::wf_model(m.1) && C::wf_model(m.2) && D::wf_model(m.3) && E::wf_model(m.4) && F::wf_model(m.5) && G::wf_model(m.6) && H::wf_model(m.7) && I::wf_model(m.8) && J::wf_model(m.9) && K::wf_model(m.10)
    }

    open spec fn spec_encode(m: (A::Model, B::Model, C::Model, D::Model, E::Model, F::Model, G::Model, H::Model, I::Model, J::Model, K::Model)) -> Seq<u8> {
        A::spec_encode(m.0) + (B::spec_encode(m.1) + (C::spec_encode(m.2) + (D::spec_encode(m.3) + (E::spec_encode(m.4) + (F::spec_encode(m.5) + (G::spec_encode(m.6) + (H::spec_encode(m.7) + (I::spec_encode(m.8) + (J::spec_encode(m.9) + K::spec_encode(m.10))))))))))
    }

    open spec fn spec_decode(input: Seq<u8>) -> Result<((A::Model, B::Model, C::Model, D::Model, E::Model, F::Model, G::Model, H::Model, I::Model, J::Model, K::Model), nat), ReadError> {
        match A::spec_decode(input) {
            Err(e) => Err(e),
            Ok((x0, n0)) => {
                let s1 = input.skip(n0 as int);
                match B::spec_decode(s1) {
                    Err(e) => Err(e),
                    Ok((x1, n1)) => {
                        let s2 = s1.skip(n1 as int);
                        match C::spec_decode(s2) {
                            Err(e) => Err(e),
                            Ok((x2, n2)) => {
                                let s3 = s2.skip(n2 as int);
                                match D::spec_decode(s3) {
                                    Err(e) => Err(e),
                                    Ok((x3, n3)) => {
                                        let s4 = s3.skip(n3 as int);
                                        match E::spec_decode(s4) {
                                            Err(e) => Err(e),
                                            Ok((x4, n4)) => {
                                                let s5 = s4.skip(n4 as int);
                                                match F::spec_decode(s5) {
                                                    Err(e) => Err(e),
                                                    Ok((x5, n5)) => {
                                                        let s6 = s5.skip(n5 as int);
                                                        match G::spec_decode(s6) {
                                                            Err(e) => Err(e),
                                                            Ok((x6, n6)) => {
                                                                let s7 = s6.skip(n6 as int);
                                                                match H::spec_decode(s7) {
                                                                    Err(e) => Err(e),
                                                                    Ok((x7, n7)) => {
                                                                        let s8 = s7.skip(n7 as int);
                                                                        match I::spec_decode(s8) {
                                                                            Err(e) => Err(e),
                                                                            Ok((x8, n8)) => {
                                                                                let s9 = s8.skip(n8 as int);
                                                                                match J::spec_decode(s9) {
                                                                                    Err(e) => Err(e),
                                                                                    Ok((x9, n9)) => {
                                                                                        let s10 = s9.skip(n9 as int);
                                                                                        match K::spec_decode(s10) {
                                                                                            Err(e) => Err(e),
                                                                                            Ok((x10, n10)) => Ok(((x0, x1, x2, x3, x4, x5, x6, x7, x8, x9, x10), n0 + (n1 + (n2 + (n3 + (n4 + (n5 + (n6 + (n7 + (n8 + (n9 + n10))))))))))),
                                                                                        }
                                                                                    },
                                                                                }
                                                                            },
                                                                        }
                                                                    },
                                                                }
                                                            },
                                                        }
                                                    },
                                                }
                                            },
                                        }
                                    },
                                }
                            },
                        }
                    },
                }
            },
        }
    }

    open spec fn spec_error_consumed(input: Seq<u8>) -> nat {
        match A::spec_decode(input) {
            Err(_) => A::spec_error_consumed(input),
            Ok((x0, n0)) => {
                let s1 = input.skip(n0 as int);
                n0 + match B::spec_decode(s1) {
                    Err(_) => B::spec_error_consumed(s1),
                    Ok((x1, n1)) => {
                        let s2 = s1.skip(n1 as int);
                        n1 + match C::spec_decode(s2) {
                            Err(_) => C::spec_error_consumed(s2),
                            Ok((x2, n2)) => {
                                let s3 = s2.skip(n2 as int);
                                n2 + match D::spec_decode(s3) {
                                    Err(_) => D::spec_error_consumed(s3),
                                    Ok((x3, n3)) => {
                                        let s4 = s3.skip(n3 as int);
                                        n3 + match E::spec_decode(s4) {
                                            Err(_) => E::spec_error_consumed(s4),
                                            Ok((x4, n4)) => {
                                                let s5 = s4.skip(n4 as int);
                                                n4 + match F::spec_decode(s5) {
                                                    Err(_) => F::spec_error_consumed(s5),
                                                    Ok((x5, n5)) => {
                                                        let s6 = s5.skip(n5 as int);
                                                        n5 + match G::spec_decode(s6) {
                                                            Err(_) => G::spec_error_consumed(s6),
                                                            Ok((x6, n6)) => {
                                                                let s7 = s6.skip(n6 as int);
                                                                n6 + match H::spec_decode(s7) {
                                                                    Err(_) => H::spec_error_consumed(s7),
                                                                    Ok((x7, n7)) => {
                                                                        let s8 = s7.skip(n7 as int);
                                                                        n7 + match I::spec_decode(s8) {
                                                                            Err(_) => I::spec_error_consumed(s8),
                                                                            Ok((x8, n8)) => {
                                                                                let s9 = s8.skip(n8 as int);
                                                                                n8 + match J::spec_decode(s9) {
                                                                                    Err(_) => J::spec_error_consumed(s9),
                                                                                    Ok((x9, n9)) => {
                                                                                        let s10 = s9.skip(n9 as int);
                                                                                        n9 + K::spec_error_consumed(s10)
                                                                                    },
                                                                                }
                                                                            },
                                                                        }
                                                                    },
                                                                }
                                                            },
                                                        }
                                                    },
                                                }
                                            },
                                        }
                                    },
                                }
                            },
                        }
                    },
                }
            },
        }
    }

    proof fn lemma_encode_decode(m: (A::Model, B::Model, C::Model, D::Model, E::Model, F::Model, G::Model, H::Model, I::Model, J::Model, K::Model), rest: Seq<u8>) {
        let e = Self::spec_encode(m);
        let t0 = B::spec_encode(m.1) + (C::spec_encode(m.2) + (D::spec_encode(m.3) + (E::spec_encode(m.4) + (F::spec_encode(m.5) + (G::spec_encode(m.6) + (H::spec_encode(m.7) + (I::spec_encode(m.8) + (J::spec_encode(m.9) + (K::spec_encode(m.10) + rest)))))))));
        let t1 = C::spec_encode(m.2) + (D::spec_encode(m.3) + (E::spec_encode(m.4) + (F::spec_encode(m.5) + (G::spec_encode(m.6) + (H::spec_encode(m.7) + (I::spec_encode(m.8) + (J::spec_encode(m.9) + (K::spec_encode(m.10) + rest))))))));
        let t2 = D::spec_encode(m.3) + (E::spec_encode(m.4) + (F::spec_encode(m.5) + (G::spec_encode(m.6) + (H::spec_encode(m.7) + (I::spec_encode(m.8) + (J::spec_encode(m.9) + (K::spec_encode(m.10) + rest)))))));
        let t3 = E::spec_encode(m.4) + (F::spec_encode(m.5) + (G::spec_encode(m.6) + (H::spec_encode(m.7) + (I::spec_encode(m.8) + (J::spec_encode(m.9) + (K::spec_encode(m.10) + rest))))));
        let t4 = F::spec_encode(m.5) + (G::spec_encode(m.6) + (H::spec_encode(m.7) + (I::spec_encode(m.8) + (J::spec_encode(m.9) + (K::spec_encode(m.10) + rest)))));
        let t5 = G::spec_encode(m.6) + (H::spec_encode(m.7) + (I::spec_encode(m.8) + (J::spec_encode(m.9) + (K::spec_encode(m.10) + rest))));
        let t6 = H::spec_encode(m.7) + (I::spec_encode(m.8) + (J::spec_encode(m.9) + (K::spec_encode(m.10) + rest)));
        let t7 = I::spec_encode(m.8) + (J::spec_encode(m.9) + (K::spec_encode(m.10) + rest));
        let t8 = J::spec_encode(m.9) + (K::spec_encode(m.10) + rest);
        let t9 = K::spec_encode(m.10) + rest;
        let t10 = rest;
        assert(e + rest =~= A::spec_encode(m.0) + t0);
        A::lemma_encode_decode(m.0, t0);
        lemma_skip_prefix(A::spec_encode(m.0), t0);
        B::lemma_encode_decode(m.1, t1);
        lemma_skip_prefix(B::spec_encode(m.1), t1);
        C::lemma_encode_decode(m.2, t2);
        lemma_skip_prefix(C::spec_encode(m.2), t2);
        D::lemma_encode_decode(m.3, t3);
        lemma_skip_prefix(D::spec_encode(m.3), t3);
        E::lemma_encode_decode(m.4, t4);
        lemma_skip_prefix(E::spec_encode(m.4), t4);
        F::lemma_encode_decode(m.5, t5);
        lemma_skip_prefix(F::spec_encode(m.5), t5);
        G::lemma_encode_decode(m.6, t6);
        lemma_skip_prefix(G::spec_encode(m.6), t6);
        H::lemma_encode_decode(m.7, t7);
        lemma_skip_prefix(H::spec_encode(m.7), t7);
        I::lemma_encode_decode(m.8, t8);
        lemma_skip_prefix(I::spec_encode(m.8), t8);
        J::lemma_encode_decode(m.9, t9);
        lemma_skip_prefix(J::spec_encode(m.9), t9);
        K::lemma_encode_decode(m.10, t10);
    }

    proof fn lemma_truncated(m: (A::Model, B::Model, C::Model, D::Model, E::Model, F::Model, G::Model, H::Model, I::Model, J::Model, K::Model), k: nat) {
        if k < Self::spec_encode(m).len() {
            lemma_truncated_step::<A>(m.0, B::spec_encode(m.1) + (C::spec_encode(m.2) + (D::spec_encode(m.3) + (E::spec_encode(m.4) + (F::spec_encode(m.5) + (G::spec_encode(m.6) + (H::spec_encode(m.7) + (I::spec_encode(m.8) + (J::spec_encode(m.9) + K::spec_encode(m.10))))))))), k);
            if k >= A::spec_encode(m.0).len() {
                let k1 = (k - A::spec_encode(m.0).len()) as nat;
                lemma_truncated_step::<B>(m.1, C::spec_encode(m.2) + (D::spec_encode(m.3) + (E::spec_encode(m.4) + (F::spec_encode(m.5) + (G::spec_encode(m.6) + (H::spec_encode(m.7) + (I::spec_encode(m.8) + (J::spec_encode(m.9) + K::spec_encode(m.10)))))))), k1);
                if k1 >= B::spec_encode(m.1).len() {
                    let k2 = (k1 - B::spec_encode(m.1).len()) as nat;
                    lemma_truncated_step::<C>(m.2, D::spec_encode(m.3) + (E::spec_encode(m.4) + (F::spec_encode(m.5) + (G::spec_encode(m.6) + (H::spec_encode(m.7) + (I::spec_encode(m.8) + (J::spec_encode(m.9) + K::spec_encode(m.10))))))), k2);
                    if k2 >= C::spec_encode(m.2).len() {
                        let k3 = (k2 - C::spec_encode(m.2).len()) as nat;
                        lemma_truncated_step::<D>(m.3, E::spec_encode(m.4) + (F::spec_encode(m.5) + (G::spec_encode(m.6) + (H::spec_encode(m.7) + (I::spec_encode(m.8) + (J::spec_encode(m.9) + K::spec_encode(m.10)))))), k3);
                        if k3 >= D::spec_encode(m.3).len() {
                            let k4 = (k3 - D::spec_encode(m.3).len()) as nat;
                            lemma_truncated_step::<E>(m.4, F::spec_encode(m.5) + (G::spec_encode(m.6) + (H::spec_encode(m.7) + (I::spec_encode(m.8) + (J::spec_encode(m.9) + K::spec_encode(m.10))))), k4);
                            if k4 >= E::spec_encode(m.4).len() {
                                let k5 = (k4 - E::spec_encode(m.4).len()) as nat;
                                lemma_truncated_step::<F>(m.5, G::spec_encode(m.6) + (H::spec_encode(m.7) + (I::spec_encode(m.8) + (J::spec_encode(m.9) + K::spec_encode(m.10)))), k5);
                                if k5 >= F::spec_encode(m.5).len() {
                                    let k6 = (k5 - F::spec_encode(m.5).len()) as nat;
                                    lemma_truncated_step::<G>(m.6, H::spec_encode(m.7) + (I::spec_encode(m.8) + (J::spec_encode(m.9) + K::spec_encode(m.10))), k6);
                                    if k6 >= G::spec_encode(m.6).len() {
                                        let k7 = (k6 - G::spec_encode(m.6).len()) as nat;
                                        lemma_truncated_step::<H>(m.7, I::spec_encode(m.8) + (J::spec_encode(m.9) + K::spec_encode(m.10)), k7);
                                        if k7 >= H::spec_encode(m.7).len() {
                                            let k8 = (k7 - H::spec_encode(m.7).len()) as nat;
                                            lemma_truncated_step::<I>(m.8, J::spec_encode(m.9) + K::spec_encode(m.10), k8);
                                            if k8 >= I::spec_encode(m.8).len() {
                                                let k9 = (k8 - I::spec_encode(m.8).len()) as nat;
                                                lemma_truncated_step::<J>(m.9, K::spec_encode(m.10), k9);
                                                if k9 >= J::spec_encode(m.9).len() {
                                                    let k10 = (k9 - J::spec_encode(m.9).len()) as nat;
                                                    K::lemma_truncated(m.10, k10);
                                                }
                                            }
                                        }
                                    }
                                }
                            }
                        }
                    }
                }
            }
        }
    }

    proof fn lemma_decode_wf(input: Seq<u8>) {
        A::lemma_decode_wf(input);
        if let Ok((x0, n0)) = A::spec_decode(input) {
            let s1 = input.skip(n0 as int);
            B::lemma_decode_wf(s1);
            if let Ok((x1, n1)) = B::spec_decode(s1) {
                let s2 = s1.skip(n1 as int);
                C::lemma_decode_wf(s2);
                if let Ok((x2, n2)) = C::spec_decode(s2) {
                    let s3 = s2.skip(n2 as int);
                    D::lemma_decode_wf(s3);
                    if let Ok((x3, n3)) = D::spec_decode(s3) {
                        let s4 = s3.skip(n3 as int);
                        E::lemma_decode_wf(s4);
                        if let Ok((x4, n4)) = E::spec_decode(s4) {
                            let s5 = s4.skip(n4 as int);
                            F::lemma_decode_wf(s5);
                            if let Ok((x5, n5)) = F::spec_decode(s5) {
                                let s6 = s5.skip(n5 as int);
                                G::lemma_decode_wf(s6);
                                if let Ok((x6, n6)) = G::spec_decode(s6) {
                                    let s7 = s6.skip(n6 as int);
                                    H::lemma_decode_wf(s7);
                                    if let Ok((x7, n7)) = H::spec_decode(s7) {
                                        let s8 = s7.skip(n7 as int);
                                        I::lemma_decode_wf(s8);
                                        if let Ok((x8, n8)) = I::spec_decode(s8) {
                                            let s9 = s8.skip(n8 as int);
                                            J::lemma_decode_wf(s9);
                                            if let Ok((x9, n9)) = J::spec_decode(s9) {
                                                let s10 = s9.skip(n9 as int);
                                                K::lemma_decode_wf(s10);
                                            }
                                        }
                                    }
                                }
                            }
                        }
                    }
                }
            }
        }
    }

    #[verifier::spinoff_prover]
    #[verifier::rlimit(40)]
    fn read_sync(stream: &mut Reader) -> (r: Result<(A, B, C, D, E, F, G, H, I, J, K), ReadError>) {
        proof {
            A::lemma_decode_wf(stream@);
        }
        let ghost b0 = stream@;
        let v0 = match A::read_sync(stream) {
            Ok(v) => v,
            Err(e) => return Err(e),
        };
        proof {
            B::lemma_decode_wf(stream@);
        }
        let ghost b1 = stream@;
        let v1 = match B::read_sync(stream) {
            Ok(v) => v,
            Err(e) => {
                proof {
                    let n0 = (b0.len() - b1.len()) as nat;
                    let c1 = B::spec_error_consumed(b1);
                    lemma_skip_skip(b0, n0, c1);
                }
                return Err(e);
            },
        };
        proof {
            C::lemma_decode_wf(stream@);
        }
        let ghost b2 = stream@;
        let v2 = match C::read_sync(stream) {
            Ok(v) => v,
            Err(e) => {
                proof {
                    let n0 = (b0.len() - b1.len()) as nat;
                    let n1 = (b1.len() - b2.len()) as nat;
                    let c2 = C::spec_error_consumed(b2);
                    lemma_skip_skip(b1, n1, c2);
                    lemma_skip_skip(b0, n0, n1 + c2);
                }
                return Err(e);
            },
        };
        proof {
            D::lemma_decode_wf(stream@);
        }
        let ghost b3 = stream@;
        let v3 = match D::read_sync(stream) {
            Ok(v) => v,
            Err(e) => {
                proof {
                    let n0 = (b0.len() - b1.len()) as nat;
                    let n1 = (b1.len() - b2.len()) as nat;
                    let n2 = (b2.len() - b3.len()) as nat;
                    let c3 = D::spec_error_consumed(b3);
                    lemma_skip_skip(b2, n2, c3);
                    lemma_skip_skip(b1, n1, n2 + c3);
                    lemma_skip_skip(b0, n0, n1 + (n2 + c3));
                }
                return Err(e);
            },
        };
        proof {
            E::lemma_decode_wf(stream@);
        }
        let ghost b4 = stream@;
        let v4 = match E::read_sync(stream) {
            Ok(v) => v,
            Err(e) => {
                proof {
                    let n0 = (b0.len() - b1.len()) as nat;
                    let n1 = (b1.len() - b2.len()) as nat;
                    let n2 = (b2.len() - b3.len()) as nat;
                    let n3 = (b3.len() - b4.len()) as nat;
                    let c4 = E::spec_error_consumed(b4);
                    lemma_skip_skip(b3, n3, c4);
                    lemma_skip_skip(b2, n2, n3 + c4);
                    lemma_skip_skip(b1, n1, n2 + (n3 + c4));
                    lemma_skip_skip(b0, n0, n1 + (n2 + (n3 + c4)));
                }
                return Err(e);
            },
        };
        proof {
            F::lemma_decode_wf(stream@);
        }
        let ghost b5 = stream@;
        let v5 = match F::read_sync(stream) {
            Ok(v) => v,
            Err(e) => {
                proof {
                    let n0 = (b0.len() - b1.len()) as nat;
                    let n1 = (b1.len() - b2.len()) as nat;
                    let n2 = (b2.len() - b3.len()) as nat;
                    let n3 = (b3.len() - b4.len()) as nat;
                    let n4 = (b4.len() - b5.len()) as nat;
                    let c5 = F::spec_error_consumed(b5);
                    lemma_skip_skip(b4, n4, c5);
                    lemma_skip_skip(b3, n3, n4 + c5);
                    lemma_skip_skip(b2, n2, n3 + (n4 + c5));
                    lemma_skip_skip(b1, n1, n2 + (n3 + (n4 + c5)));
                    lemma_skip_skip(b0, n0, n1 + (n2 + (n3 + (n4 + c5))));
                }
                return Err(e);
            },
        };
        proof {
            G::lemma_decode_wf(stream@);
        }
        let ghost b6 = stream@;
        let v6 = match G::read_sync(stream) {
            Ok(v) => v,
            Err(e) => {
                proof {
                    let n0 = (b0.len() - b1.len()) as nat;
                    let n1 = (b1.len() - b2.len()) as nat;
                    let n2 = (b2.len() - b3.len()) as nat;
                    let n3 = (b3.len() - b4.len()) as nat;
                    let n4 = (b4.len() - b5.len()) as nat;
                    let n5 = (b5.len() - b6.len()) as nat;
                    let c6 = G::spec_error_consumed(b6);
                    lemma_skip_skip(b5, n5, c6);
                    lemma_skip_skip(b4, n4, n5 + c6);
                    lemma_skip_skip(b3, n3, n4 + (n5 + c6));
                    lemma_skip_skip(b2, n2, n3 + (n4 + (n5 + c6)));
                    lemma_skip_skip(b1, n1, n2 + (n3 + (n4 + (n5 + c6))));
                    lemma_skip_skip(b0, n0, n1 + (n2 + (n3 + (n4 + (n5 + c6)))));
                }
                return Err(e);
            },
        };
        proof {
            H::lemma_decode_wf(stream@);
        }
        let ghost b7 = stream@;
        let v7 = match H::read_sync(stream) {
            Ok(v) => v,
            Err(e) => {
                proof {
                    let n0 = (b0.len() - b1.len()) as nat;
                    let n1 = (b1.len() - b2.len()) as nat;
                    let n2 = (b2.len() - b3.len()) as nat;
                    let n3 = (b3.len() - b4.len()) as nat;
                    let n4 = (b4.len() - b5.len()) as nat;
                    let n5 = (b5.len() - b6.len()) as nat;
                    let n6 = (b6.len() - b7.len()) as nat;
                    let c7 = H::spec_error_consumed(b7);
                    lemma_skip_skip(b6, n6, c7);
                    lemma_skip_skip(b5, n5, n6 + c7);
                    lemma_skip_skip(b4, n4, n5 + (n6 + c7));
                    lemma_skip_skip(b3, n3, n4 + (n5 + (n6 + c7)));
                    lemma_skip_skip(b2, n2, n3 + (n4 + (n5 + (n6 + c7))));
                    lemma_skip_skip(b1, n1, n2 + (n3 + (n4 + (n5 + (n6 + c7)))));
                    lemma_skip_skip(b0, n0, n1 + (n2 + (n3 + (n4 + (n5 + (n6 + c7))))));
                }
                return Err(e);
            },
        };
        proof {
            I::lemma_decode_wf(stream@);
        }
        let ghost b8 = stream@;
        let v8 = match I::read_sync(stream) {
            Ok(v) => v,
            Err(e) => {
                proof {
                    let n0 = (b0.len() - b1.len()) as nat;
                    let n1 = (b1.len() - b2.len()) as nat;
                    let n2 = (b2.len() - b3.len()) as nat;
                    let n3 = (b3.len() - b4.len()) as nat;
                    let n4 = (b4.len() - b5.len()) as nat;
                    let n5 = (b5.len() - b6.len()) as nat;
                    let n6 = (b6.len() - b7.len()) as nat;
                    let n7 = (b7.len() - b8.len()) as nat;
                    let c8 = I::spec_error_consumed(b8);
                    lemma_skip_skip(b7, n7, c8);
                    lemma_skip_skip(b6, n6, n7 + c8);
                    lemma_skip_skip(b5, n5, n6 + (n7 + c8));
                    lemma_skip_skip(b4, n4, n5 + (n6 + (n7 + c8)));
                    lemma_skip_skip(b3, n3, n4 + (n5 + (n6 + (n7 + c8))));
                    lemma_skip_skip(b2, n2, n3 + (n4 + (n5 + (n6 + (n7 + c8)))));
                    lemma_skip_skip(b1, n1, n2 + (n3 + (n4 + (n5 + (n6 + (n7 + c8))))));
                    lemma_skip_skip(b0, n0, n1 + (n2 + (n3 + (n4 + (n5 + (n6 + (n7 + c8)))))));
                }
                return Err(e);
            },
        };
        proof {
            J::lemma_decode_wf(stream@);
        }
        let ghost b9 = stream@;
        let v9 = match J::read_sync(stream) {
            Ok(v) => v,
            Err(e) => {
                proof {
                    let n0 = (b0.len() - b1.len()) as nat;
                    let n1 = (b1.len() - b2.len()) as nat;
                    let n2 = (b2.len() - b3.len()) as nat;
                    let n3 = (b3.len() - b4.len()) as nat;
                    let n4 = (b4.len() - b5.len()) as nat;
                    let n5 = (b5.len() - b6.len()) as nat;
                    let n6 = (b6.len() - b7.len()) as nat;
                    let n7 = (b7.len() - b8.len()) as nat;
                    let n8 = (b8.len() - b9.len()) as nat;
                    let c9 = J::spec_error_consumed(b9);
                    lemma_skip_skip(b8, n8, c9);
                    lemma_skip_skip(b7, n7, n8 + c9);
                    lemma_skip_skip(b6, n6, n7 + (n8 + c9));
                    lemma_skip_skip(b5, n5, n6 + (n7 + (n8 + c9)));
                    lemma_skip_skip(b4, n4, n5 + (n6 + (n7 + (n8 + c9))));
                    lemma_skip_skip(b3, n3, n4 + (n5 + (n6 + (n7 + (n8 + c9)))));
                    lemma_skip_skip(b2, n2, n3 + (n4 + (n5 + (n6 + (n7 + (n8 + c9))))));
                    lemma_skip_skip(b1, n1, n2 + (n3 + (n4 + (n5 + (n6 + (n7 + (n8 + c9)))))));
                    lemma_skip_skip(b0, n0, n1 + (n2 + (n3 + (n4 + (n5 + (n6 + (n7 + (n8 + c9))))))));
                }
                return Err(e);
            },
        };
        proof {
            K::lemma_decode_wf(stream@);
        }
        let ghost b10 = stream@;
        let v10 = match K::read_sync(stream) {
            Ok(v) => v,
            Err(e) => {
                proof {
                    let n0 = (b0.len() - b1.len()) as nat;
                    let n1 = (b1.len() - b2.len()) as nat;
                    let n2 = (b2.len() - b3.len()) as nat;
                    let n3 = (b3.len() - b4.len()) as nat;
                    let n4 = (b4.len() - b5.len()) as nat;
                    let n5 = (b5.len() - b6.len()) as nat;
                    let n6 = (b6.len() - b7.len()) as nat;
                    let n7 = (b7.len() - b8.len()) as nat;
                    let n8 = (b8.len() - b9.len()) as nat;
                    let n9 = (b9.len() - b10.len()) as nat;
                    let c10 = K::spec_error_consumed(b10);
                    lemma_skip_skip(b9, n9, c10);
                    lemma_skip_skip(b8, n8, n9 + c10);
                    lemma_skip_skip(b7, n7, n8 + (n9 + c10));
                    lemma_skip_skip(b6, n6, n7 + (n8 + (n9 + c10)));
                    lemma_skip_skip(b5, n5, n6 + (n7 + (n8 + (n9 + c10))));
                    lemma_skip_skip(b4, n4, n5 + (n6 + (n7 + (n8 + (n9 + c10)))));
                    lemma_skip_skip(b3, n3, n4 + (n5 + (n6 + (n7 + (n8 + (n9 + c10))))));
                    lemma_skip_skip(b2, n2, n3 + (n4 + (n5 + (n6 + (n7 + (n8 + (n9 + c10)))))));
                    lemma_skip_skip(b1, n1, n2 + (n3 + (n4 + (n5 + (n6 + (n7 + (n8 + (n9 + c10))))))));
                    lemma_skip_skip(b0, n0, n1 + (n2 + (n3 + (n4 + (n5 + (n6 + (n7 + (n8 + (n9 + c10)))))))));
                }
                return Err(e);
            },
        };
        proof {
            let n9 = (b9.len() - b10.len()) as nat;
            let n8 = (b8.len() - b9.len()) as nat;
            let n7 = (b7.len() - b8.len()) as nat;
            let n6 = (b6.len() - b7.len()) as nat;
            let n5 = (b5.len() - b6.len()) as nat;
            let n4 = (b4.len() - b5.len()) as nat;
            let n3 = (b3.len() - b4.len()) as nat;
            let n2 = (b2.len() - b3.len()) as nat;
            let n1 = (b1.len() - b2.len()) as nat;
            let n0 = (b0.len() - b1.len()) as nat;
            let n10 = (b10.len() - stream@.len()) as nat;
            lemma_skip_skip(b9, n9, n10);
            lemma_skip_skip(b8, n8, n9 + n10);
            lemma_skip_skip(b7, n7, n8 + (n9 + n10));
            lemma_skip_skip(b6, n6, n7 + (n8 + (n9 + n10)));
            lemma_skip_skip(b5, n5, n6 + (n7 + (n8 + (n9 + n10))));
            lemma_skip_skip(b4, n4, n5 + (n6 + (n7 + (n8 + (n9 + n10)))));
            lemma_skip_skip(b3, n3, n4 + (n5 + (n6 + (n7 + (n8 + (n9 + n10))))));
            lemma_skip_skip(b2, n2, n3 + (n4 + (n5 + (n6 + (n7 + (n8 + (n9 + n10)))))));
            lemma_skip_skip(b1, n1, n2 + (n3 + (n4 + (n5 + (n6 + (n7 + (n8 + (n9 + n10))))))));
            lemma_skip_skip(b0, n0, n1 + (n2 + (n3 + (n4 + (n5 + (n6 + (n7 + (n8 + (n9 + n10)))))))));
        }
        Ok((v0, v1, v2, v3, v4, v5, v6, v7, v8, v9, v10))
    }

    #[verifier::spinoff_prover]
    #[verifier::rlimit(40)]
    fn write_sync(&self, sink: &mut Vec<u8>) -> (r: Result<(), WriteError>) {
        let _ = self.0.write_sync(sink);
        let _ = self.1.write_sync(sink);
        let _ = self.2.write_sync(sink);
        let _ = self.3.write_sync(sink);
        let _ = self.4.write_sync(sink);
        let _ = self.5.write_sync(sink);
        let _ = self.6.write_sync(sink);
        let _ = self.7.write_sync(sink);
        let _ = self.8.write_sync(sink);
        let _ = self.9.write_sync(sink);
        let _ = self.10.write_sync(sink);
        assert(final(sink)@ =~= old(sink)@ + Self::spec_encode(self.model()));
        Ok(())
    }
}

impl<A: Canonical, B: Canonical, C: Canonical, D: Canonical, E: Canonical, F: Canonical, G: Canonical, H: Canonical, I: Canonical, J: Canonical, K: Canonical> Canonical for (A, B, C, D, E, F, G, H, I, J, K) {
    proof fn lemma_decode_encode(input: Seq<u8>) {
        A::lemma_decode_wf(input);
        A::lemma_decode_encode(input);
        if let Ok((x0, n0)) = A::spec_decode(input) {
            let s1 = input.skip(n0 as int);
            B::lemma_decode_wf(s1);
            B::lemma_decode_encode(s1);
            if let Ok((x1, n1)) = B::spec_decode(s1) {
                let s2 = s1.skip(n1 as int);
                C::lemma_decode_wf(s2);
                C::lemma_decode_encode(s2);
                if let Ok((x2, n2)) = C::spec_decode(s2) {
                    let s3 = s2.skip(n2 as int);
                    D::lemma_decode_wf(s3);
                    D::lemma_decode_encode(s3);
                    if let Ok((x3, n3)) = D::spec_decode(s3) {
                        let s4 = s3.skip(n3 as int);
                        E::lemma_decode_wf(s4);
                        E::lemma_decode_encode(s4);
                        if let Ok((x4, n4)) = E::spec_decode(s4) {
                            let s5 = s4.skip(n4 as int);
                            F::lemma_decode_wf(s5);
                            F::lemma_decode_encode(s5);
                            if let Ok((x5, n5)) = F::spec_decode(s5) {
                                let s6 = s5.skip(n5 as int);
                                G::lemma_decode_wf(s6);
                                G::lemma_decode_encode(s6);
                                if let Ok((x6, n6)) = G::spec_decode(s6) {
                                    let s7 = s6.skip(n6 as int);
                                    H::lemma_decode_wf(s7);
                                    H::lemma_decode_encode(s7);
                                    if let Ok((x7, n7)) = H::spec_decode(s7) {
                                        let s8 = s7.skip(n7 as int);
                                        I::lemma_decode_wf(s8);
                                        I::lemma_decode_encode(s8);
                                        if let Ok((x8, n8)) = I::spec_decode(s8) {
                                            let s9 = s8.skip(n8 as int);
                                            J::lemma_decode_wf(s9);
                                            J::lemma_decode_encode(s9);
                                            if let Ok((x9, n9)) = J::spec_decode(s9) {
                                                let s10 = s9.skip(n9 as int);
                                                K::lemma_decode_wf(s10);
                                                K::lemma_decode_encode(s10);
                                                if let Ok((x10, n10)) = K::spec_decode(s10) {
                                                    lemma_take_split(s9, n9, n10);
                                                    lemma_take_split(s8, n8, n9 + n10);
                                                    lemma_take_split(s7, n7, n8 + (n9 + n10));
                                                    lemma_take_split(s6, n6, n7 + (n8 + (n9 + n10)));
                                                    lemma_take_split(s5, n5, n6 + (n7 + (n8 + (n9 + n10))));
                                                    lemma_take_split(s4, n4, n5 + (n6 + (n7 + (n8 + (n9 + n10)))));
                                                    lemma_take_split(s3, n3, n4 + (n5 + (n6 + (n7 + (n8 + (n9 + n10))))));
                                                    lemma_take_split(s2, n2, n3 + (n4 + (n5 + (n6 + (n7 + (n8 + (n9 + n10)))))));
                                                    lemma_take_split(s1, n1, n2 + (n3 + (n4 + (n5 + (n6 + (n7 + (n8 + (n9 + n10))))))));
                                                    lemma_take_split(input, n0, n1 + (n2 + (n3 + (n4 + (n5 + (n6 + (n7 + (n8 + (n9 + n10)))))))));
                                                }
                                            }
                                        }
                                    }
                                }
                            }
                        }
                    }
                }
            }
        }
    }
}

/// A tuple of 12 components is represented by the representations of its components, in order.
impl<A: Protocol, B: Protocol, C: Protocol, D: Protocol, E: Protocol, F: Protocol, G: Protocol, H: Protocol, I: Protocol, J: Protocol, K: Protocol, L: Protocol> Protocol for (A, B, C, D, E, F, G, H, I, J, K, L) {
    type Model = (A::Model, B::Model, C::Model, D::Model, E::Model, F::Model, G::Model, H::Model, I::Model, J::Model, K::Model, L::Model);

    open spec fn model(&self) -> (A::Model, B::Model, C::Model, D::Model, E::Model, F::Model, G::Model, H::Model, I::Model, J::Model, K::Model, L::Model) {
        (self.0.model(), self.1.model(), self.2.model(), self.3.model(), self.4.model(), self.5.model(), self.6.model(), self.7.model(), self.8.model(), self.9.model(), self.10.model(), self.11.model())
    }

    open spec fn wf_model(m: (A::Model, B::Model, C::Model, D::Model, E::Model, F::Model, G::Model, H::Model, I::Model, J::Model, K::Model, L::Model)) -> bool {
        A::wf_model(m.0) && B::wf_model(m.1) && C::wf_model(m.2) && D::wf_model(m.3) && E::wf_model(m.4) && F::wf_model(m.5) && G::wf_model(m.6) && H::wf_model(m.7) && I::wf_model(m.8) && J::wf_model(m.9) && K::wf_model(m.10) && L::wf_model(m.11)
    }

    open spec fn spec_encode(m: (A::Model, B::Model, C::Model, D::Model, E::Model, F::Model, G::Model, H::Model, I::Model, J::Model, K::Model, L::Model)) -> Seq<u8> {
        A::spec_encode(m.0) + (B::spec_encode(m.1) + (C::spec_encode(m.2) + (D::spec_encode(m.3) + (E::spec_encode(m.4) + (F::spec_encode(m.5) + (G::spec_encode(m.6) + (H::spec_encode(m.7) + (I::spec_encode(m.8) + (J::spec_encode(m.9) + (K::spec_encode(m.10) + L::spec_encode(m.11)))))))))))
    }

    open spec fn spec_decode(input: Seq<u8>) -> Result<((A::Model, B::Model, C::Model, D::Model, E::Model, F::Model, G::Model, H::Model, I::Model, J::Model, K::Model, L::Model), nat), ReadError> {
        match A::spec_decode(input) {
            Err(e) => Err(e),
            Ok((x0, n0)) => {
                let s1 = input.skip(n0 as int);
                match B::spec_decode(s1) {
                    Err(e) => Err(e),
                    Ok((x1, n1)) => {
                        let s2 = s1.skip(n1 as int);
                        match C::spec_decode(s2) {
                            Err(e) => Err(e),
                            Ok((x2, n2)) => {
                                let s3 = s2.skip(n2 as int);
                                match D::spec_decode(s3) {
                                    Err(e) => Err(e),
                                    Ok((x3, n3)) => {
                                        let s4 = s3.skip(n3 as int);
                                        match E::spec_decode(s4) {
                                            Err(e) => Err(e),
                                            Ok((x4, n4)) => {
                                                let s5 = s4.skip(n4 as int);
                                                match F::spec_decode(s5) {
                                                    Err(e) => Err(e),
                                                    Ok((x5, n5)) => {
                                                        let s6 = s5.skip(n5 as int);
                                                        match G::spec_decode(s6) {
                                                            Err(e) => Err(e),
                                                            Ok((x6, n6)) => {
                                                                let s7 = s6.skip(n6 as int);
                                                                match H::spec_decode(s7) {
                                                                    Err(e) => Err(e),
                                                                    Ok((x7, n7)) => {
                                                                        let s8 = s7.skip(n7 as int);
                                                                        match I::spec_decode(s8) {
                                                                            Err(e) => Err(e),
                                                                            Ok((x8, n8)) => {
                                                                                let s9 = s8.skip(n8 as int);
                                                                                match J::spec_decode(s9) {
                                                                                    Err(e) => Err(e),
                                                                                    Ok((x9, n9)) => {
                                                                                        let s10 = s9.skip(n9 as int);
                                                                                        match K::spec_decode(s10) {
                                                                                            Err(e) => Err(e),
                                                                                            Ok((x10, n10)) => {
                                                                                                let s11 = s10.skip(n10 as int);
                                                                                                match L::spec_decode(s11) {
                                                                                                    Err(e) => Err(e),
                                                                                                    Ok((x11, n11)) => Ok(((x0, x1, x2, x3, x4, x5, x6, x7, x8, x9, x10, x11), n0 + (n1 + (n2 + (n3 + (n4 + (n5 + (n6 + (n7 + (n8 + (n9 + (n10 + n11)))))))))))),
                                                                                                }
                                                                                            },
                                                                                        }
                                                                                    },
                                                                                }
                                                                            },
                                                                        }
                                                                    },
                                                                }
                                                            },
                                                        }
                                                    },
                                                }
                                            },
                                        }
                                    },
                                }
                            },
                        }
                    },
                }
            },
        }
    }

    open spec fn spec_error_consumed(input: Seq<u8>) -> nat {
        match A::spec_decode(input) {
            Err(_) => A::spec_error_consumed(input),
            Ok((x0, n0)) => {
                let s1 = input.skip(n0 as int);
                n0 + match B::spec_decode(s1) {
                    Err(_) => B::spec_error_consumed(s1),
                    Ok((x1, n1)) => {
                        let s2 = s1.skip(n1 as int);
                        n1 + match C::spec_decode(s2) {
                            Err(_) => C::spec_error_consumed(s2),
                            Ok((x2, n2)) => {
                                let s3 = s2.skip(n2 as int);
                                n2 + match D::spec_decode(s3) {
                                    Err(_) => D::spec_error_consumed(s3),
                                    Ok((x3, n3)) => {
                                        let s4 = s3.skip(n3 as int);
                                        n3 + match E::spec_decode(s4) {
                                            Err(_) => E::spec_error_consumed(s4),
                                            Ok((x4, n4)) => {
                                                let s5 = s4.skip(n4 as int);
                                                n4 + match F::spec_decode(s5) {
                                                    Err(_) => F::spec_error_consumed(s5),
                                                    Ok((x5, n5)) => {
                                                        let s6 = s5.skip(n5 as int);
                                                        n5 + match G::spec_decode(s6) {
                                                            Err(_) => G::spec_error_consumed(s6),
                                                            Ok((x6, n6)) => {
                                                                let s7 = s6.skip(n6 as int);
                                                                n6 + match H::spec_decode(s7) {
                                                                    Err(_) => H::spec_error_consumed(s7),
                                                                    Ok((x7, n7)) => {
                                                                        let s8 = s7.skip(n7 as int);
                                                                        n7 + match I::spec_decode(s8) {
                                                                            Err(_) => I::spec_error_consumed(s8),
                                                                            Ok((x8, n8)) => {
                                                                                let s9 = s8.skip(n8 as int);
                                                                                n8 + match J::spec_decode(s9) {
                                                                                    Err(_) => J::spec_error_consumed(s9),
                                                                                    Ok((x9, n9)) => {
                                                                                        let s10 = s9.skip(n9 as int);
                                                                                        n9 + match K::spec_decode(s10) {
                                                                                            Err(_) => K::spec_error_consumed(s10),
                                                                                            Ok((x10, n10)) => {
                                                                                                let s11 = s10.skip(n10 as int);
                                                                                                n10 + L::spec_error_consumed(s11)
                                                                                            },
                                                                                        }
                                                                                    },
                                                                                }
                                                                            },
                                                                        }
                                                                    },
                                                                }
                                                            },
                                                        }
                                                    },
                                                }
                                            },
                                        }
                                    },
                                }
                            },
                        }
                    },
                }
            },
        }
    }

    proof fn lemma_encode_decode(m: (A::Model, B::Model, C::Model, D::Model, E::Model, F::Model, G::Model, H::Model, I::Model, J::Model, K::Model, L::Model), rest: Seq<u8>) {
        let e = Self::spec_encode(m);
        let t0 = B::spec_encode(m.1) + (C::spec_encode(m.2) + (D::spec_encode(m.3) + (E::spec_encode(m.4) + (F::spec_encode(m.5) + (G::spec_encode(m.6) + (H::spec_encode(m.7) + (I::spec_encode(m.8) + (J::spec_encode(m.9) + (K::spec_encode(m.10) + (L::spec_encode(m.11) + rest))))))))));
        let t1 = C::spec_encode(m.2) + (D::spec_encode(m.3) + (E::spec_encode(m.4) + (F::spec_encode(m.5) + (G::spec_encode(m.6) + (H::spec_encode(m.7) + (I::spec_encode(m.8) + (J::spec_encode(m.9) + (K::spec_encode(m.10) + (L::spec_encode(m.11) + rest)))))))));
        let t2 = D::spec_encode(m.3) + (E::spec_encode(m.4) + (F::spec_encode(m.5) + (G::spec_encode(m.6) + (H::spec_encode(m.7) + (I::spec_encode(m.8) + (J::spec_encode(m.9) + (K::spec_encode(m.10) + (L::spec_encode(m.11) + rest))))))));
        let t3 = E::spec_encode(m.4) + (F::spec_encode(m.5) + (G::spec_encode(m.6) + (H::spec_encode(m.7) + (I::spec_encode(m.8) + (J::spec_encode(m.9) + (K::spec_encode(m.10) + (L::spec_encode(m.11) + rest)))))));
        let t4 = F::spec_encode(m.5) + (G::spec_encode(m.6) + (H::spec_encode(m.7) + (I::spec_encode(m.8) + (J::spec_encode(m.9) + (K::spec_encode(m.10) + (L::spec_encode(m.11) + rest))))));
        let t5 = G::spec_encode(m.6) + (H::spec_encode(m.7) + (I::spec_encode(m.8) + (J::spec_encode(m.9) + (K::spec_encode(m.10) + (L::spec_encode(m.11) + rest)))));
        let t6 = H::spec_encode(m.7) + (I::spec_encode(m.8) + (J::spec_encode(m.9) + (K::spec_encode(m.10) + (L::spec_encode(m.11) + rest))));
        let t7 = I::spec_encode(m.8) + (J::spec_encode(m.9) + (K::spec_encode(m.10) + (L::spec_encode(m.11) + rest)));
        let t8 = J::spec_encode(m.9) + (K::spec_encode(m.10) + (L::spec_encode(m.11) + rest));
        let t9 = K::spec_encode(m.10) + (L::spec_encode(m.11) + rest);
        let t10 = L::spec_encode(m.11) + rest;
        let t11 = rest;
        assert(e + rest =~= A::spec_encode(m.0) + t0);
        A::lemma_encode_decode(m.0, t0);
        lemma_skip_prefix(A::spec_encode(m.0), t0);
        B::lemma_encode_decode(m.1, t1);
        lemma_skip_prefix(B::spec_encode(m.1), t1);
        C::lemma_encode_decode(m.2, t2);
        lemma_skip_prefix(C::spec_encode(m.2), t2);
        D::lemma_encode_decode(m.3, t3);
        lemma_skip_prefix(D::spec_encode(m.3), t3);
        E::lemma_encode_decode(m.4, t4);
        lemma_skip_prefix(E::spec_encode(m.4), t4);
        F::lemma_encode_decode(m.5, t5);
        lemma_skip_prefix(F::spec_encode(m.5), t5);
        G::lemma_encode_decode(m.6, t6);
        lemma_skip_prefix(G::spec_encode(m.6), t6);
        H::lemma_encode_decode(m.7, t7);
        lemma_skip_prefix(H::spec_encode(m.7), t7);
        I::lemma_encode_decode(m.8, t8);
        lemma_skip_prefix(I::spec_encode(m.8), t8);
        J::lemma_encode_decode(m.9, t9);
        lemma_skip_prefix(J::spec_encode(m.9), t9);
        K::lemma_encode_decode(m.10, t10);
        lemma_skip_prefix(K::spec_encode(m.10), t10);
        L::lemma_encode_decode(m.11, t11);
    }

    proof fn lemma_truncated(m: (A::Model, B::Model, C::Model, D::Model, E::Model, F::Model, G::Model, H::Model, I::Model, J::Model, K::Model, L::Model), k: nat) {
        if k < Self::spec_encode(m).len() {
            lemma_truncated_step::<A>(m.0, B::spec_encode(m.1) + (C::spec_encode(m.2) + (D::spec_encode(m.3) + (E::spec_encode(m.4) + (F::spec_encode(m.5) + (G::spec_encode(m.6) + (H::spec_encode(m.7) + (I::spec_encode(m.8) + (J::spec_encode(m.9) + (K::spec_encode(m.10) + L::spec_encode(m.11)))))))))), k);
            if k >= A::spec_encode(m.0).len() {
                let k1 = (k - A::spec_encode(m.0).len()) as nat;
                lemma_truncated_step::<B>(m.1, C::spec_encode(m.2) + (D::spec_encode(m.3) + (E::spec_encode(m.4) + (F::spec_encode(m.5) + (G::spec_encode(m.6) + (H::spec_encode(m.7) + (I::spec_encode(m.8) + (J::spec_encode(m.9) + (K::spec_encode(m.10) + L::spec_encode(m.11))))))))), k1);
                if k1 >= B::spec_encode(m.1).len() {
                    let k2 = (k1 - B::spec_encode(m.1).len()) as nat;
                    lemma_truncated_step::<C>(m.2, D::spec_encode(m.3) + (E::spec_encode(m.4) + (F::spec_encode(m.5) + (G::spec_encode(m.6) + (H::spec_encode(m.7) + (I::spec_encode(m.8) + (J::spec_encode(m.9) + (K::spec_encode(m.10) + L::spec_encode(m.11)))))))), k2);
                    if k2 >= C::spec_encode(m.2).len() {
                        let k3 = (k2 - C::spec_encode(m.2).len()) as nat;
                        lemma_truncated_step::<D>(m.3, E::spec_encode(m.4) + (F::spec_encode(m.5) + (G::spec_encode(m.6) + (H::spec_encode(m.7) + (I::spec_encode(m.8) + (J::spec_encode(m.9) + (K::spec_encode(m.10) + L::spec_encode(m.11))))))), k3);
                        if k3 >= D::spec_encode(m.3).len() {
                            let k4 = (k3 - D::spec_encode(m.3).len()) as nat;
                            lemma_truncated_step::<E>(m.4, F::spec_encode(m.5) + (G::spec_encode(m.6) + (H::spec_encode(m.7) + (I::spec_encode(m.8) + (J::spec_encode(m.9) + (K::spec_encode(m.10) + L::spec_encode(m.11)))))), k4);
                            if k4 >= E::spec_encode(m.4).len() {
                                let k5 = (k4 - E::spec_encode(m.4).len()) as nat;
                                lemma_truncated_step::<F>(m.5, G::spec_encode(m.6) + (H::spec_encode(m.7) + (I::spec_encode(m.8) + (J::spec_encode(m.9) + (K::spec_encode(m.10) + L::spec_encode(m.11))))), k5);
                                if k5 >= F::spec_encode(m.5).len() {
                                    let k6 = (k5 - F::spec_encode(m.5).len()) as nat;
                                    lemma_truncated_step::<G>(m.6, H::spec_encode(m.7) + (I::spec_encode(m.8) + (J::spec_encode(m.9) + (K::spec_encode(m.10) + L::spec_encode(m.11)))), k6);
                                    if k6 >= G::spec_encode(m.6).len() {
                                        let k7 = (k6 - G::spec_encode(m.6).len()) as nat;
                                        lemma_truncated_step::<H>(m.7, I::spec_encode(m.8) + (J::spec_encode(m.9) + (K::spec_encode(m.10) + L::spec_encode(m.11))), k7);
                                        if k7 >= H::spec_encode(m.7).len() {
                                            let k8 = (k7 - H::spec_encode(m.7).len()) as nat;
                                            lemma_truncated_step::<I>(m.8, J::spec_encode(m.9) + (K::spec_encode(m.10) + L::spec_encode(m.11)), k8);
                                            if k8 >= I::spec_encode(m.8).len() {
                                                let k9 = (k8 - I::spec_encode(m.8).len()) as nat;
                                                lemma_truncated_step::<J>(m.9, K::spec_encode(m.10) + L::spec_encode(m.11), k9);
                                                if k9 >= J::spec_encode(m.9).len() {
                                                    let k10 = (k9 - J::spec_encode(m.9).len()) as nat;
                                                    lemma_truncated_step::<K>(m.10, L::spec_encode(m.11), k10);
                                                    if k10 >= K::spec_encode(m.10).len() {
                                                        let k11 = (k10 - K::spec_encode(m.10).len()) as nat;
                                                        L::lemma_truncated(m.11, k11);
                                                    }
                                                }
                                            }
                                        }
                                    }
                                }
                            }
                        }
                    }
                }
            }
        }
    }

    proof fn lemma_decode_wf(input: Seq<u8>) {
        A::lemma_decode_wf(input);
        if let Ok((x0, n0)) = A::spec_decode(input) {
            let s1 = input.skip(n0 as int);
            B::lemma_decode_wf(s1);
            if let Ok((x1, n1)) = B::spec_decode(s1) {
                let s2 = s1.skip(n1 as int);
                C::lemma_decode_wf(s2);
                if let Ok((x2, n2)) = C::spec_decode(s2) {
                    let s3 = s2.skip(n2 as int);
                    D::lemma_decode_wf(s3);
                    if let Ok((x3, n3)) = D::spec_decode(s3) {
                        let s4 = s3.skip(n3 as int);
                        E::lemma_decode_wf(s4);
                        if let Ok((x4, n4)) = E::spec_decode(s4) {
                            let s5 = s4.skip(n4 as int);
                            F::lemma_decode_wf(s5);
                            if let Ok((x5, n5)) = F::spec_decode(s5) {
                                let s6 = s5.skip(n5 as int);
                                G::lemma_decode_wf(s6);
                                if let Ok((x6, n6)) = G::spec_decode(s6) {
                                    let s7 = s6.skip(n6 as int);
                                    H::lemma_decode_wf(s7);
                                    if let Ok((x7, n7)) = H::spec_decode(s7) {
                                        let s8 = s7.skip(n7 as int);
                                        I::lemma_decode_wf(s8);
                                        if let Ok((x8, n8)) = I::spec_decode(s8) {
                                            let s9 = s8.skip(n8 as int);
                                            J::lemma_decode_wf(s9);
                                            if let Ok((x9, n9)) = J::spec_decode(s9) {
                                                let s10 = s9.skip(n9 as int);
                                                K::lemma_decode_wf(s10);
                                                if let Ok((x10, n10)) = K::spec_decode(s10) {
                                                    let s11 = s10.skip(n10 as int);
                                                    L::lemma_decode_wf(s11);
                                                }
                                            }
                                        }
                                    }
                                }
                            }
                        }
                    }
                }
            }
        }
    }

    #[verifier::spinoff_prover]
    #[verifier::rlimit(40)]
    fn read_sync(stream: &mut Reader) -> (r: Result<(A, B, C, D, E, F, G, H, I, J, K, L), ReadError>) {
        proof {
            A::lemma_decode_wf(stream@);
        }
        let ghost b0 = stream@;
        let v0 = match A::read_sync(stream) {
            Ok(v) => v,
            Err(e) => return Err(e),
        };
        proof {
            B::lemma_decode_wf(stream@);
        }
        let ghost b1 = stream@;
        let v1 = match B::read_sync(stream) {
            Ok(v) => v,
            Err(e) => {
                proof {
                    let n0 = (b0.len() - b1.len()) as nat;
                    let c1 = B::spec_error_consumed(b1);
                    lemma_skip_skip(b0, n0, c1);
                }
                return Err(e);
            },
        };
        proof {
            C::lemma_decode_wf(stream@);
        }
        let ghost b2 = stream@;
        let v2 = match C::read_sync(stream) {
            Ok(v) => v,
            Err(e) => {
                proof {
                    let n0 = (b0.len() - b1.len()) as nat;
                    let n1 = (b1.len() - b2.len()) as nat;
                    let c2 = C::spec_error_consumed(b2);
                    lemma_skip_skip(b1, n1, c2);
                    lemma_skip_skip(b0, n0, n1 + c2);
                }
                return Err(e);
            },
        };
        proof {
            D::lemma_decode_wf(stream@);
        }
        let ghost b3 = stream@;
        let v3 = match D::read_sync(stream) {
            Ok(v) => v,
            Err(e) => {
                proof {
                    let n0 = (b0.len() - b1.len()) as nat;
                    let n1 = (b1.len() - b2.len()) as nat;
                    let n2 = (b2.len() - b3.len()) as nat;
                    let c3 = D::spec_error_consumed(b3);
                    lemma_skip_skip(b2, n2, c3);
                    lemma_skip_skip(b1, n1, n2 + c3);
                    lemma_skip_skip(b0, n0, n1 + (n2 + c3));
                }
                return Err(e);
            },
        };
        proof {
            E::lemma_decode_wf(stream@);
        }
        let ghost b4 = stream@;
        let v4 = match E::read_sync(stream) {
            Ok(v) => v,
            Err(e) => {
                proof {
                    let n0 = (b0.len() - b1.len()) as nat;
                    let n1 = (b1.len() - b2.len()) as nat;
                    let n2 = (b2.len() - b3.len()) as nat;
                    let n3 = (b3.len() - b4.len()) as nat;
                    let c4 = E::spec_error_consumed(b4);
                    lemma_skip_skip(b3, n3, c4);
                    lemma_skip_skip(b2, n2, n3 + c4);
                    lemma_skip_skip(b1, n1, n2 + (n3 + c4));
                    lemma_skip_skip(b0, n0, n1 + (n2 + (n3 + c4)));
                }
                return Err(e);
            },
        };
        proof {
            F::lemma_decode_wf(stream@);
        }
        let ghost b5 = stream@;
        let v5 = match F::read_sync(stream) {
            Ok(v) => v,
            Err(e) => {
                proof {
                    let n0 = (b0.len() - b1.len()) as nat;
                    let n1 = (b1.len() - b2.len()) as nat;
                    let n2 = (b2.len() - b3.len()) as nat;
                    let n3 = (b3.len() - b4.len()) as nat;
                    let n4 = (b4.len() - b5.len()) as nat;
                    let c5 = F::spec_error_consumed(b5);
                    lemma_skip_skip(b4, n4, c5);
                    lemma_skip_skip(b3, n3, n4 + c5);
                    lemma_skip_skip(b2, n2, n3 + (n4 + c5));
                    lemma_skip_skip(b1, n1, n2 + (n3 + (n4 + c5)));
                    lemma_skip_skip(b0, n0, n1 + (n2 + (n3 + (n4 + c5))));
                }
                return Err(e);
            },
        };
        proof {
            G::lemma_decode_wf(stream@);
        }
        let ghost b6 = stream@;
        let v6 = match G::read_sync(stream) {
            Ok(v) => v,
            Err(e) => {
                proof {
                    let n0 = (b0.len() - b1.len()) as nat;
                    let n1 = (b1.len() - b2.len()) as nat;
                    let n2 = (b2.len() - b3.len()) as nat;
                    let n3 = (b3.len() - b4.len()) as nat;
                    let n4 = (b4.len() - b5.len()) as nat;
                    let n5 = (b5.len() - b6.len()) as nat;
                    let c6 = G::spec_error_consumed(b6);
                    lemma_skip_skip(b5, n5, c6);
                    lemma_skip_skip(b4, n4, n5 + c6);
                    lemma_skip_skip(b3, n3, n4 + (n5 + c6));
                    lemma_skip_skip(b2, n2, n3 + (n4 + (n5 + c6)));
                    lemma_skip_skip(b1, n1, n2 + (n3 + (n4 + (n5 + c6))));
                    lemma_skip_skip(b0, n0, n1 + (n2 + (n3 + (n4 + (n5 + c6)))));
                }
                return Err(e);
            },
        };
        proof {
            H::lemma_decode_wf(stream@);
        }
        let ghost b7 = stream@;
        let v7 = match H::read_sync(stream) {
            Ok(v) => v,
            Err(e) => {
                proof {
                    let n0 = (b0.len() - b1.len()) as nat;
                    let n1 = (b1.len() - b2.len()) as nat;
                    let n2 = (b2.len() - b3.len()) as nat;
                    let n3 = (b3.len() - b4.len()) as nat;
                    let n4 = (b4.len() - b5.len()) as nat;
                    let n5 = (b5.len() - b6.len()) as nat;
                    let n6 = (b6.len() - b7.len()) as nat;
                    let c7 = H::spec_error_consumed(b7);
                    lemma_skip_skip(b6, n6, c7);
                    lemma_skip_skip(b5, n5, n6 + c7);
                    lemma_skip_skip(b4, n4, n5 + (n6 + c7));
                    lemma_skip_skip(b3, n3, n4 + (n5 + (n6 + c7)));
                    lemma_skip_skip(b2, n2, n3 + (n4 + (n5 + (n6 + c7))));
                    lemma_skip_skip(b1, n1, n2 + (n3 + (n4 + (n5 + (n6 + c7)))));
                    lemma_skip_skip(b0, n0, n1 + (n2 + (n3 + (n4 + (n5 + (n6 + c7))))));
                }
                return Err(e);
            },
        };
        proof {
            I::lemma_decode_wf(stream@);
        }
        let ghost b8 = stream@;
        let v8 = match I::read_sync(stream) {
            Ok(v) => v,
            Err(e) => {
                proof {
                    let n0 = (b0.len() - b1.len()) as nat;
                    let n1 = (b1.len() - b2.len()) as nat;
                    let n2 = (b2.len() - b3.len()) as nat;
                    let n3 = (b3.len() - b4.len()) as nat;
                    let n4 = (b4.len() - b5.len()) as nat;
                    let n5 = (b5.len() - b6.len()) as nat;
                    let n6 = (b6.len() - b7.len()) as nat;
                    let n7 = (b7.len() - b8.len()) as nat;
                    let c8 = I::spec_error_consumed(b8);
                    lemma_skip_skip(b7, n7, c8);
                    lemma_skip_skip(b6, n6, n7 + c8);
                    lemma_skip_skip(b5, n5, n6 + (n7 + c8));
                    lemma_skip_skip(b4, n4, n5 + (n6 + (n7 + c8)));
                    lemma_skip_skip(b3, n3, n4 + (n5 + (n6 + (n7 + c8))));
                    lemma_skip_skip(b2, n2, n3 + (n4 + (n5 + (n6 + (n7 + c8)))));
                    lemma_skip_skip(b1, n1, n2 + (n3 + (n4 + (n5 + (n6 + (n7 + c8))))));
                    lemma_skip_skip(b0, n0, n1 + (n2 + (n3 + (n4 + (n5 + (n6 + (n7 + c8)))))));
                }
                return Err(e);
            },
        };
        proof {
            J::lemma_decode_wf(stream@);
        }
        let ghost b9 = stream@;
        let v9 = match J::read_sync(stream) {
            Ok(v) => v,
            Err(e) => {
                proof {
                    let n0 = (b0.len() - b1.len()) as nat;
                    let n1 = (b1.len() - b2.len()) as nat;
                    let n2 = (b2.len() - b3.len()) as nat;
                    let n3 = (b3.len() - b4.len()) as nat;
                    let n4 = (b4.len() - b5.len()) as nat;
                    let n5 = (b5.len() - b6.len()) as nat;
                    let n6 = (b6.len() - b7.len()) as nat;
                    let n7 = (b7.len() - b8.len()) as nat;
                    let n8 = (b8.len() - b9.len()) as nat;
                    let c9 = J::spec_error_consumed(b9);
                    lemma_skip_skip(b8, n8, c9);
                    lemma_skip_skip(b7, n7, n8 + c9);
                    lemma_skip_skip(b6, n6, n7 + (n8 + c9));
                    lemma_skip_skip(b5, n5, n6 + (n7 + (n8 + c9)));
                    lemma_skip_skip(b4, n4, n5 + (n6 + (n7 + (n8 + c9))));
                    lemma_skip_skip(b3, n3, n4 + (n5 + (n6 + (n7 + (n8 + c9)))));
                    lemma_skip_skip(b2, n2, n3 + (n4 + (n5 + (n6 + (n7 + (n8 + c9))))));
                    lemma_skip_skip(b1, n1, n2 + (n3 + (n4 + (n5 + (n6 + (n7 + (n8 + c9)))))));
                    lemma_skip_skip(b0, n0, n1 + (n2 + (n3 + (n4 + (n5 + (n6 + (n7 + (n8 + c9))))))));
                }
                return Err(e);
            },
        };
        proof {
            K::lemma_decode_wf(stream@);
        }
        let ghost b10 = stream@;
        let v10 = match K::read_sync(stream) {
            Ok(v) => v,
            Err(e) => {
                proof {
                    let n0 = (b0.len() - b1.len()) as nat;
                    let n1 = (b1.len() - b2.len()) as nat;
                    let n2 = (b2.len() - b3.len()) as nat;
                    let n3 = (b3.len() - b4.len()) as nat;
                    let n4 = (b4.len() - b5.len()) as nat;
                    let n5 = (b5.len() - b6.len()) as nat;
                    let n6 = (b6.len() - b7.len()) as nat;
                    let n7 = (b7.len() - b8.len()) as nat;
                    let n8 = (b8.len() - b9.len()) as nat;
                    let n9 = (b9.len() - b10.len()) as nat;
                    let c10 = K::spec_error_consumed(b10);
                    lemma_skip_skip(b9, n9, c10);
                    lemma_skip_skip(b8, n8, n9 + c10);
                    lemma_skip_skip(b7, n7, n8 + (n9 + c10));
                    lemma_skip_skip(b6, n6, n7 + (n8 + (n9 + c10)));
                    lemma_skip_skip(b5, n5, n6 + (n7 + (n8 + (n9 + c10))));
                    lemma_skip_skip(b4, n4, n5 + (n6 + (n7 + (n8 + (n9 + c10)))));
                    lemma_skip_skip(b3, n3, n4 + (n5 + (n6 + (n7 + (n8 + (n9 + c10))))));
                    lemma_skip_skip(b2, n2, n3 + (n4 + (n5 + (n6 + (n7 + (n8 + (n9 + c10)))))));
                    lemma_skip_skip(b1, n1, n2 + (n3 + (n4 + (n5 + (n6 + (n7 + (n8 + (n9 + c10))))))));
                    lemma_skip_skip(b0, n0, n1 + (n2 + (n3 + (n4 + (n5 + (n6 + (n7 + (n8 + (n9 + c10)))))))));
                }
                return Err(e);
            },
        };
        proof {
            L::lemma_decode_wf(stream@);
        }
        let ghost b11 = stream@;
        let v11 = match L::read_sync(stream) {
            Ok(v) => v,
            Err(e) => {
                proof {
                    let n0 = (b0.len() - b1.len()) as nat;
                    let n1 = (b1.len() - b2.len()) as nat;
                    let n2 = (b2.len() - b3.len()) as nat;
                    let n3 = (b3.len() - b4.len()) as nat;
                    let n4 = (b4.len() - b5.len()) as nat;
                    let n5 = (b5.len() - b6.len()) as nat;
                    let n6 = (b6.len() - b7.len()) as nat;
                    let n7 = (b7.len() - b8.len()) as nat;
                    let n8 = (b8.len() - b9.len()) as nat;
                    let n9 = (b9.len() - b10.len()) as nat;
                    let n10 = (b10.len() - b11.len()) as nat;
                    let c11 = L::spec_error_consumed(b11);
                    lemma_skip_skip(b10, n10, c11);
                    lemma_skip_skip(b9, n9, n10 + c11);
                    lemma_skip_skip(b8, n8, n9 + (n10 + c11));
                    lemma_skip_skip(b7, n7, n8 + (n9 + (n10 + c11)));
                    lemma_skip_skip(b6, n6, n7 + (n8 + (n9 + (n10 + c11))));
                    lemma_skip_skip(b5, n5, n6 + (n7 + (n8 + (n9 + (n10 + c11)))));
                    lemma_skip_skip(b4, n4, n5 + (n6 + (n7 + (n8 + (n9 + (n10 + c11))))));
                    lemma_skip_skip(b3, n3, n4 + (n5 + (n6 + (n7 + (n8 + (n9 + (n10 + c11)))))));
                    lemma_skip_skip(b2, n2, n3 + (n4 + (n5 + (n6 + (n7 + (n8 + (n9 + (n10 + c11))))))));
                    lemma_skip_skip(b1, n1, n2 + (n3 + (n4 + (n5 + (n6 + (n7 + (n8 + (n9 + (n10 + c11)))))))));
                    lemma_skip_skip(b0, n0, n1 + (n2 + (n3 + (n4 + (n5 + (n6 + (n7 + (n8 + (n9 + (n10 + c11))))))))));
                }
                return Err(e);
            },
        };
        proof {
            let n10 = (b10.len() - b11.len()) as nat;
            let n9 = (b9.len() - b10.len()) as nat;
            let n8 = (b8.len() - b9.len()) as nat;
            let n7 = (b7.len() - b8.len()) as nat;
            let n6 = (b6.len() - b7.len()) as nat;
            let n5 = (b5.len() - b6.len()) as nat;
            let n4 = (b4.len() - b5.len()) as nat;
            let n3 = (b3.len() - b4.len()) as nat;
            let n2 = (b2.len() - b3.len()) as nat;
            let n1 = (b1.len() - b2.len()) as nat;
            let n0 = (b0.len() - b1.len()) as nat;
            let n11 = (b11.len() - stream@.len()) as nat;
            lemma_skip_skip(b10, n10, n11);
            lemma_skip_skip(b9, n9, n10 + n11);
            lemma_skip_skip(b8, n8, n9 + (n10 + n11));
            lemma_skip_skip(b7, n7, n8 + (n9 + (n10 + n11)));
            lemma_skip_skip(b6, n6, n7 + (n8 + (n9 + (n10 + n11))));
            lemma_skip_skip(b5, n5, n6 + (n7 + (n8 + (n9 + (n10 + n11)))));
            lemma_skip_skip(b4, n4, n5 + (n6 + (n7 + (n8 + (n9 + (n10 + n11))))));
            lemma_skip_skip(b3, n3, n4 + (n5 + (n6 + (n7 + (n8 + (n9 + (n10 + n11)))))));
            lemma_skip_skip(b2, n2, n3 + (n4 + (n5 + (n6 + (n7 + (n8 + (n9 + (n10 + n11))))))));
            lemma_skip_skip(b1, n1, n2 + (n3 + (n4 + (n5 + (n6 + (n7 + (n8 + (n9 + (n10 + n11)))))))));
            lemma_skip_skip(b0, n0, n1 + (n2 + (n3 + (n4 + (n5 + (n6 + (n7 + (n8 + (n9 + (n10 + n11))))))))));
        }
        Ok((v0, v1, v2, v3, v4, v5, v6, v7, v8, v9, v10, v11))
    }

    #[verifier::spinoff_prover]
    #[verifier::rlimit(40)]
    fn write_sync(&self, sink: &mut Vec<u8>) -> (r: Result<(), WriteError>) {
        let _ = self.0.write_sync(sink);
        let _ = self.1.write_sync(sink);
        let _ = self.2.write_sync(sink);
        let _ = self.3.write_sync(sink);
        let _ = self.4.write_sync(sink);
        let _ = self.5.write_sync(sink);
        let _ = self.6.write_sync(sink);
        let _ = self.7.write_sync(sink);
        let _ = self.8.write_sync(sink);
        let _ = self.9.write_sync(sink);
        let _ = self.10.write_sync(sink);
        let _ = self.11.write_sync(sink);
        assert(final(sink)@ =~= old(sink)@ + Self::spec_encode(self.model()));
        Ok(())
    }
}

impl<A: Canonical, B: Canonical, C: Canonical, D: Canonical, E: Canonical, F: Canonical, G: Canonical, H: Canonical, I: Canonical, J: Canonical, K: Canonical, L: Canonical> Canonical for (A, B, C, D, E, F, G, H, I, J, K, L) {
    proof fn lemma_decode_encode(input: Seq<u8>) {
        A::lemma_decode_wf(input);
        A::lemma_decode_encode(input);
        if let Ok((x0, n0)) = A::spec_decode(input) {
            let s1 = input.skip(n0 as int);
            B::lemma_decode_wf(s1);
            B::lemma_decode_encode(s1);
            if let Ok((x1, n1)) = B::spec_decode(s1) {
                let s2 = s1.skip(n1 as int);
                C::lemma_decode_wf(s2);
                C::lemma_decode_encode(s2);
                if let Ok((x2, n2)) = C::spec_decode(s2) {
                    let s3 = s2.skip(n2 as int);
                    D::lemma_decode_wf(s3);
                    D::lemma_decode_encode(s3);
                    if let Ok((x3, n3)) = D::spec_decode(s3) {
                        let s4 = s3.skip(n3 as int);
                        E::lemma_decode_wf(s4);
                        E::lemma_decode_encode(s4);
                        if let Ok((x4, n4)) = E::spec_decode(s4) {
                            let s5 = s4.skip(n4 as int);
                            F::lemma_decode_wf(s5);
                            F::lemma_decode_encode(s5);
                            if let Ok((x5, n5)) = F::spec_decode(s5) {
                                let s6 = s5.skip(n5 as int);
                                G::lemma_decode_wf(s6);
                                G::lemma_decode_encode(s6);
                                if let Ok((x6, n6)) = G::spec_decode(s6) {
                                    let s7 = s6.skip(n6 as int);
                                    H::lemma_decode_wf(s7);
                                    H::lemma_decode_encode(s7);
                                    if let Ok((x7, n7)) = H::spec_decode(s7) {
                                        let s8 = s7.skip(n7 as int);
                                        I::lemma_decode_wf(s8);
                                        I::lemma_decode_encode(s8);
                                        if let Ok((x8, n8)) = I::spec_decode(s8) {
                                            let s9 = s8.skip(n8 as int);
                                            J::lemma_decode_wf(s9);
                                            J::lemma_decode_encode(s9);
                                            if let Ok((x9, n9)) = J::spec_decode(s9) {
                                                let s10 = s9.skip(n9 as int);
                                                K::lemma_decode_wf(s10);
                                                K::lemma_decode_encode(s10);
                                                if let Ok((x10, n10)) = K::spec_decode(s10) {
                                                    let s11 = s10.skip(n10 as int);
                                                    L::lemma_decode_wf(s11);
                                                    L::lemma_decode_encode(s11);
                                                    if let Ok((x11, n11)) = L::spec_decode(s11) {
                                                        lemma_take_split(s10, n10, n11);
                                                        lemma_take_split(s9, n9, n10 + n11);
                                                        lemma_take_split(s8, n8, n9 + (n10 + n11));
                                                        lemma_take_split(s7, n7, n8 + (n9 + (n10 + n11)));
                                                        lemma_take_split(s6, n6, n7 + (n8 + (n9 + (n10 + n11))));
                                                        lemma_take_split(s5, n5, n6 + (n7 + (n8 + (n9 + (n10 + n11)))));
                                                        lemma_take_split(s4, n4, n5 + (n6 + (n7 + (n8 + (n9 + (n10 + n11))))));
                                                        lemma_take_split(s3, n3, n4 + (n5 + (n6 + (n7 + (n8 + (n9 + (n10 + n11)))))));
                                                        lemma_take_split(s2, n2, n3 + (n4 + (n5 + (n6 + (n7 + (n8 + (n9 + (n10 + n11))))))));
                                                        lemma_take_split(s1, n1, n2 + (n3 + (n4 + (n5 + (n6 + (n7 + (n8 + (n9 + (n10 + n11)))))))));
                                                        lemma_take_split(input, n0, n1 + (n2 + (n3 + (n4 + (n5 + (n6 + (n7 + (n8 + (n9 + (n10 + n11))))))))));
                                                    }
                                                }
                                            }
                                        }
                                    }
                                }
                            }
                        }
                    }
                }
            }
        }
    }
}

/// A tuple of 1 component is written as its component, and
/// reads back from it, followed by any bytes, consuming exactly it.
pub proof fn law_tuple1_in_order<A: Protocol>(m: (A::Model,), rest: Seq<u8>)
    requires
        A::wf_model(m.0),
    ensures
        <(A,) as Protocol>::spec_encode(m) == A::spec_encode(m.0),
        <(A,) as Protocol>::spec_decode(A::spec_encode(m.0) + rest) == Ok::<((A::Model,), nat), ReadError>(
            (m, (A::spec_encode(m.0)).len()),
        ),
{
    assert(<(A,) as Protocol>::spec_encode(m) =~= A::spec_encode(m.0));
    <(A,) as Protocol>::lemma_encode_decode(m, rest);
}

/// A tuple of 2 components is written as its components, in order, one after the other, and
/// reads back from that concatenation, followed by any bytes, consuming exactly them.
pub proof fn law_tuple2_in_order<A: Protocol, B: Protocol>(m: (A::Model, B::Model), rest: Seq<u8>)
    requires
        A::wf_model(m.0),
        B::wf_model(m.1),
    ensures
        <(A, B) as Protocol>::spec_encode(m) == A::spec_encode(m.0) + B::spec_encode(m.1),
        <(A, B) as Protocol>::spec_decode(A::spec_encode(m.0) + B::spec_encode(m.1) + rest) == Ok::<((A::Model, B::Model), nat), ReadError>(
            (m, (A::spec_encode(m.0) + B::spec_encode(m.1)).len()),
        ),
{
    assert(<(A, B) as Protocol>::spec_encode(m) =~= A::spec_encode(m.0) + B::spec_encode(m.1));
    <(A, B) as Protocol>::lemma_encode_decode(m, rest);
}

/// A tuple of 3 components is written as its components, in order, one after the other, and
/// reads back from that concatenation, followed by any bytes, consuming exactly them.
pub proof fn law_tuple3_in_order<A: Protocol, B: Protocol, C: Protocol>(m: (A::Model, B::Model, C::Model), rest: Seq<u8>)
    requires
        A::wf_model(m.0),
        B::wf_model(m.1),
        C::wf_model(m.2),
    ensures
        <(A, B, C) as Protocol>::spec_encode(m) == A::spec_encode(m.0) + B::spec_encode(m.1) + C::spec_encode(m.2),
        <(A, B, C) as Protocol>::spec_decode(A::spec_encode(m.0) + B::spec_encode(m.1) + C::spec_encode(m.2) + rest) == Ok::<((A::Model, B::Model, C::Model), nat), ReadError>(
            (m, (A::spec_encode(m.0) + B::spec_encode(m.1) + C::spec_encode(m.2)).len()),
        ),
{
    assert(<(A, B, C) as Protocol>::spec_encode(m) =~= A::spec_encode(m.0) + B::spec_encode(m.1) + C::spec_encode(m.2));
    <(A, B, C) as Protocol>::lemma_encode_decode(m, rest);
}

/// A tuple of 4 components is written as its components, in order, one after the other, and
/// reads back from that concatenation, followed by any bytes, consuming exactly them.
pub proof fn law_tuple4_in_order<A: Protocol, B: Protocol, C: Protocol, D: Protocol>(m: (A::Model, B::Model, C::Model, D::Model), rest: Seq<u8>)
    requires
        A::wf_model(m.0),
        B::wf_model(m.1),
        C::wf_model(m.2),
        D::wf_model(m.3),
    ensures
        <(A, B, C, D) as Protocol>::spec_encode(m) == A::spec_encode(m.0) + B::spec_encode(m.1) + C::spec_encode(m.2) + D::spec_encode(m.3),
        <(A, B, C, D) as Protocol>::spec_decode(A::spec_encode(m.0) + B::spec_encode(m.1) + C::spec_encode(m.2) + D::spec_encode(m.3) + rest) == Ok::<((A::Model, B::Model, C::Model, D::Model), nat), ReadError>(
            (m, (A::spec_encode(m.0) + B::spec_encode(m.1) + C::spec_encode(m.2) + D::spec_encode(m.3)).len()),
        ),
{
    assert(<(A, B, C, D) as Protocol>::spec_encode(m) =~= A::spec_encode(m.0) + B::spec_encode(m.1) + C::spec_encode(m.2) + D::spec_encode(m.3));
    <(A, B, C, D) as Protocol>::lemma_encode_decode(m, rest);
}

/// A tuple of 5 components is written as its components, in order, one after the other, and
/// reads back from that concatenation, followed by any bytes, consuming exactly them.
pub proof fn law_tuple5_in_order<A: Protocol, B: Protocol, C: Protocol, D: Protocol, E: Protocol>(m: (A::Model, B::Model, C::Model, D::Model, E::Model), rest: Seq<u8>)
    requires
        A::wf_model(m.0),
        B::wf_model(m.1),
        C::wf_model(m.2),
        D::wf_model(m.3),
        E::wf_model(m.4),
    ensures
        <(A, B, C, D, E) as Protocol>::spec_encode(m) == A::spec_encode(m.0) + B::spec_encode(m.1) + C::spec_encode(m.2) + D::spec_encode(m.3) + E::spec_encode(m.4),
        <(A, B, C, D, E) as Protocol>::spec_decode(A::spec_encode(m.0) + B::spec_encode(m.1) + C::spec_encode(m.2) + D::spec_encode(m.3) + E::spec_encode(m.4) + rest) == Ok::<((A::Model, B::Model, C::Model, D::Model, E::Model), nat), ReadError>(
            (m, (A::spec_encode(m.0) + B::spec_encode(m.1) + C::spec_encode(m.2) + D::spec_encode(m.3) + E::spec_encode(m.4)).len()),
        ),
{
    assert(<(A, B, C, D, E) as Protocol>::spec_encode(m) =~= A::spec_encode(m.0) + B::spec_encode(m.1) + C::spec_encode(m.2) + D::spec_encode(m.3) + E::spec_encode(m.4));
    <(A, B, C, D, E) as Protocol>::lemma_encode_decode(m, rest);
}

/// A tuple of 6 components is written as its components, in order, one after the other, and
/// reads back from that concatenation, followed by any bytes, consuming exactly them.
pub proof fn law_tuple6_in_order<A: Protocol, B: Protocol, C: Protocol, D: Protocol, E: Protocol, F: Protocol>(m: (A::Model, B::Model, C::Model, D::Model, E::Model, F::Model), rest: Seq<u8>)
    requires
        A::wf_model(m.0),
        B::wf_model(m.1),
        C::wf_model(m.2),
        D::wf_model(m.3),
        E::wf_model(m.4),
        F::wf_model(m.5),
    ensures
        <(A, B, C, D, E, F) as Protocol>::spec_encode(m) == A::spec_encode(m.0) + B::spec_encode(m.1) + C::spec_encode(m.2) + D::spec_encode(m.3) + E::spec_encode(m.4) + F::spec_encode(m.5),
        <(A, B, C, D, E, F) as Protocol>::spec_decode(A::spec_encode(m.0) + B::spec_encode(m.1) + C::spec_encode(m.2) + D::spec_encode(m.3) + E::spec_encode(m.4) + F::spec_encode(m.5) + rest) == Ok::<((A::Model, B::Model, C::Model, D::Model, E::Model, F::Model), nat), ReadError>(
            (m, (A::spec_encode(m.0) + B::spec_encode(m.1) + C::spec_encode(m.2) + D::spec_encode(m.3) + E::spec_encode(m.4) + F::spec_encode(m.5)).len()),
        ),
{
    assert(<(A, B, C, D, E, F) as Protocol>::spec_encode(m) =~= A::spec_encode(m.0) + B::spec_encode(m.1) + C::spec_encode(m.2) + D::spec_encode(m.3) + E::spec_encode(m.4) + F::spec_encode(m.5));
    <(A, B, C, D, E, F) as Protocol>::lemma_encode_decode(m, rest);
}

/// A tuple of 7 components is written as its components, in order, one after the other, and
/// reads back from that concatenation, followed by any bytes, consuming exactly them.
pub proof fn law_tuple7_in_order<A: Protocol, B: Protocol, C: Protocol, D: Protocol, E: Protocol, F: Protocol, G: Protocol>(m: (A::Model, B::Model, C::Model, D::Model, E::Model, F::Model, G::Model), rest: Seq<u8>)
    requires
        A::wf_model(m.0),
        B::wf_model(m.1),
        C::wf_model(m.2),
        D::wf_model(m.3),
        E::wf_model(m.4),
        F::wf_model(m.5),
        G::wf_model(m.6),
    ensures
        <(A, B, C, D, E, F, G) as Protocol>::spec_encode(m) == A::spec_encode(m.0) + B::spec_encode(m.1) + C::spec_encode(m.2) + D::spec_encode(m.3) + E::spec_encode(m.4) + F::spec_encode(m.5) + G::spec_encode(m.6),
        <(A, B, C, D, E, F, G) as Protocol>::spec_decode(A::spec_encode(m.0) + B::spec_encode(m.1) + C::spec_encode(m.2) + D::spec_encode(m.3) + E::spec_encode(m.4) + F::spec_encode(m.5) + G::spec_encode(m.6) + rest) == Ok::<((A::Model, B::Model, C::Model, D::Model, E::Model, F::Model, G::Model), nat), ReadError>(
            (m, (A::spec_encode(m.0) + B::spec_encode(m.1) + C::spec_encode(m.2) + D::spec_encode(m.3) + E::spec_encode(m.4) + F::spec_encode(m.5) + G::spec_encode(m.6)).len()),
        ),
{
    assert(<(A, B, C, D, E, F, G) as Protocol>::spec_encode(m) =~= A::spec_encode(m.0) + B::spec_encode(m.1) + C::spec_encode(m.2) + D::spec_encode(m.3) + E::spec_encode(m.4) + F::spec_encode(m.5) + G::spec_encode(m.6));
    <(A, B, C, D, E, F, G) as Protocol>::lemma_encode_decode(m, rest);
}

/// A tuple of 8 components is written as its components, in order, one after the other, and
/// reads back from that concatenation, followed by any bytes, consuming exactly them.
pub proof fn law_tuple8_in_order<A: Protocol, B: Protocol, C: Protocol, D: Protocol, E: Protocol, F: Protocol, G: Protocol, H: Protocol>(m: (A::Model, B::Model, C::Model, D::Model, E::Model, F::Model, G::Model, H::Model), rest: Seq<u8>)
    requires
        A::wf_model(m.0),
        B::wf_model(m.1),
        C::wf_model(m.2),
        D::wf_model(m.3),
        E::wf_model(m.4),
        F::wf_model(m.5),
        G::wf_model(m.6),
        H::wf_model(m.7),
    ensures
        <(A, B, C, D, E, F, G, H) as Protocol>::spec_encode(m) == A::spec_encode(m.0) + B::spec_encode(m.1) + C::spec_encode(m.2) + D::spec_encode(m.3) + E::spec_encode(m.4) + F::spec_encode(m.5) + G::spec_encode(m.6) + H::spec_encode(m.7),
        <(A, B, C, D, E, F, G, H) as Protocol>::spec_decode(A::spec_encode(m.0) + B::spec_encode(m.1) + C::spec_encode(m.2) + D::spec_encode(m.3) + E::spec_encode(m.4) + F::spec_encode(m.5) + G::spec_encode(m.6) + H::spec_encode(m.7) + rest) == Ok::<((A::Model, B::Model, C::Model, D::Model, E::Model, F::Model, G::Model, H::Model), nat), ReadError>(
            (m, (A::spec_encode(m.0) + B::spec_encode(m.1) + C::spec_encode(m.2) + D::spec_encode(m.3) + E::spec_encode(m.4) + F::spec_encode(m.5) + G::spec_encode(m.6) + H::spec_encode(m.7)).len()),
        ),
{
    assert(<(A, B, C, D, E, F, G, H) as Protocol>::spec_encode(m) =~= A::spec_encode(m.0) + B::spec_encode(m.1) + C::spec_encode(m.2) + D::spec_encode(m.3) + E::spec_encode(m.4) + F::spec_encode(m.5) + G::spec_encode(m.6) + H::spec_encode(m.7));
    <(A, B, C, D, E, F, G, H) as Protocol>::lemma_encode_decode(m, rest);
}

/// A tuple of 9 components is written as its components, in order, one after the other, and
/// reads back from that concatenation, followed by any bytes, consuming exactly them.
pub proof fn law_tuple9_in_order<A: Protocol, B: Protocol, C: Protocol, D: Protocol, E: Protocol, F: Protocol, G: Protocol, H: Protocol, I: Protocol>(m: (A::Model, B::Model, C::Model, D::Model, E::Model, F::Model, G::Model, H::Model, I::Model), rest: Seq<u8>)
    requires
        A::wf_model(m.0),
        B::wf_model(m.1),
        C::wf_model(m.2),
        D::wf_model(m.3),
        E::wf_model(m.4),
        F::wf_model(m.5),
        G::wf_model(m.6),
        H::wf_model(m.7),
        I::wf_model(m.8),
    ensures
        <(A, B, C, D, E, F, G, H, I) as Protocol>::spec_encode(m) == A::spec_encode(m.0) + B::spec_encode(m.1) + C::spec_encode(m.2) + D::spec_encode(m.3) + E::spec_encode(m.4) + F::spec_encode(m.5) + G::spec_encode(m.6) + H::spec_encode(m.7) + I::spec_encode(m.8),
        <(A, B, C, D, E, F, G, H, I) as Protocol>::spec_decode(A::spec_encode(m.0) + B::spec_encode(m.1) + C::spec_encode(m.2) + D::spec_encode(m.3) + E::spec_encode(m.4) + F::spec_encode(m.5) + G::spec_encode(m.6) + H::spec_encode(m.7) + I::spec_encode(m.8) + rest) == Ok::<((A::Model, B::Model, C::Model, D::Model, E::Model, F::Model, G::Model, H::Model, I::Model), nat), ReadError>(
            (m, (A::spec_encode(m.0) + B::spec_encode(m.1) + C::spec_encode(m.2) + D::spec_encode(m.3) + E::spec_encode(m.4) + F::spec_encode(m.5) + G::spec_encode(m.6) + H::spec_encode(m.7) + I::spec_encode(m.8)).len()),
        ),
{
    assert(<(A, B, C, D, E, F, G, H, I) as Protocol>::spec_encode(m) =~= A::spec_encode(m.0) + B::spec_encode(m.1) + C::spec_encode(m.2) + D::spec_encode(m.3) + E::spec_encode(m.4) + F::spec_encode(m.5) + G::spec_encode(m.6) + H::spec_encode(m.7) + I::spec_encode(m.8));
    <(A, B, C, D, E, F, G, H, I) as Protocol>::lemma_encode_decode(m, rest);
}

/// A tuple of 10 components is written as its components, in order, one after the other, and
/// reads back from that concatenation, followed by any bytes, consuming exactly them.
pub proof fn law_tuple10_in_order<A: Protocol, B: Protocol, C: Protocol, D: Protocol, E: Protocol, F: Protocol, G: Protocol, H: Protocol, I: Protocol, J: Protocol>(m: (A::Model, B::Model, C::Model, D::Model, E::Model, F::Model, G::Model, H::Model, I::Model, J::Model), rest: Seq<u8>)
    requires
        A::wf_model(m.0),
        B::wf_model(m.1),
        C::wf_model(m.2),
        D::wf_model(m.3),
        E::wf_model(m.4),
        F::wf_model(m.5),
        G::wf_model(m.6),
        H::wf_model(m.7),
        I::wf_model(m.8),
        J::wf_model(m.9),
    ensures
        <(A, B, C, D, E, F, G, H, I, J) as Protocol>::spec_encode(m) == A::spec_encode(m.0) + B::spec_encode(m.1) + C::spec_encode(m.2) + D::spec_encode(m.3) + E::spec_encode(m.4) + F::spec_encode(m.5) + G::spec_encode(m.6) + H::spec_encode(m.7) + I::spec_encode(m.8) + J::spec_encode(m.9),
        <(A, B, C, D, E, F, G, H, I, J) as Protocol>::spec_decode(A::spec_encode(m.0) + B::spec_encode(m.1) + C::spec_encode(m.2) + D::spec_encode(m.3) + E::spec_encode(m.4) + F::spec_encode(m.5) + G::spec_encode(m.6) + H::spec_encode(m.7) + I::spec_encode(m.8) + J::spec_encode(m.9) + rest) == Ok::<((A::Model, B::Model, C::Model, D::Model, E::Model, F::Model, G::Model, H::Model, I::Model, J::Model), nat), ReadError>(
            (m, (A::spec_encode(m.0) + B::spec_encode(m.1) + C::spec_encode(m.2) + D::spec_encode(m.3) + E::spec_encode(m.4) + F::spec_encode(m.5) + G::spec_encode(m.6) + H::spec_encode(m.7) + I::spec_encode(m.8) + J::spec_encode(m.9)).len()),
        ),
{
    assert(<(A, B, C, D, E, F, G, H, I, J) as Protocol>::spec_encode(m) =~= A::spec_encode(m.0) + B::spec_encode(m.1) + C::spec_encode(m.2) + D::spec_encode(m.3) + E::spec_encode(m.4) + F::spec_encode(m.5) + G::spec_encode(m.6) + H::spec_encode(m.7) + I::spec_encode(m.8) + J::spec_encode(m.9));
    <(A, B, C, D, E, F, G, H, I, J) as Protocol>::lemma_encode_decode(m, rest);
}

/// A tuple of 11 components is written as its components, in order, one after the other, and
/// reads back from that concatenation, followed by any bytes, consuming exactly them.
pub proof fn law_tuple11_in_order<A: Protocol, B: Protocol, C: Protocol, D: Protocol, E: Protocol, F: Protocol, G: Protocol, H: Protocol, I: Protocol, J: Protocol, K: Protocol>(m: (A::Model, B::Model, C::Model, D::Model, E::Model, F::Model, G::Model, H::Model, I::Model, J::Model, K::Model), rest: Seq<u8>)
    requires
        A::wf_model(m.0),
        B::wf_model(m.1),
        C::wf_model(m.2),
        D::wf_model(m.3),
        E::wf_model(m.4),
        F::wf_model(m.5),
        G::wf_model(m.6),
        H::wf_model(m.7),
        I::wf_model(m.8),
        J::wf_model(m.9),
        K::wf_model(m.10),
    ensures
        <(A, B, C, D, E, F, G, H, I, J, K) as Protocol>::spec_encode(m) == A::spec_encode(m.0) + B::spec_encode(m.1) + C::spec_encode(m.2) + D::spec_encode(m.3) + E::spec_encode(m.4) + F::spec_encode(m.5) + G::spec_encode(m.6) + H::spec_encode(m.7) + I::spec_encode(m.8) + J::spec_encode(m.9) + K::spec_encode(m.10),
        <(A, B, C, D, E, F, G, H, I, J, K) as Protocol>::spec_decode(A::spec_encode(m.0) + B::spec_encode(m.1) + C::spec_encode(m.2) + D::spec_encode(m.3) + E::spec_encode(m.4) + F::spec_encode(m.5) + G::spec_encode(m.6) + H::spec_encode(m.7) + I::spec_encode(m.8) + J::spec_encode(m.9) + K::spec_encode(m.10) + rest) == Ok::<((A::Model, B::Model, C::Model, D::Model, E::Model, F::Model, G::Model, H::Model, I::Model, J::Model, K::Model), nat), ReadError>(
            (m, (A::spec_encode(m.0) + B::spec_encode(m.1) + C::spec_encode(m.2) + D::spec_encode(m.3) + E::spec_encode(m.4) + F::spec_encode(m.5) + G::spec_encode(m.6) + H::spec_encode(m.7) + I::spec_encode(m.8) + J::spec_encode(m.9) + K::spec_encode(m.10)).len()),
        ),
{
    assert(<(A, B, C, D, E, F, G, H, I, J, K) as Protocol>::spec_encode(m) =~= A::spec_encode(m.0) + B::spec_encode(m.1) + C::spec_encode(m.2) + D::spec_encode(m.3) + E::spec_encode(m.4) + F::spec_encode(m.5) + G::spec_encode(m.6) + H::spec_encode(m.7) + I::spec_encode(m.8) + J::spec_encode(m.9) + K::spec_encode(m.10));
    <(A, B, C, D, E, F, G, H, I, J, K) as Protocol>::lemma_encode_decode(m, rest);
}

/// A tuple of 12 components is written as its components, in order, one after the other, and
/// reads back from that concatenation, followed by any bytes, consuming exactly them.
pub proof fn law_tuple12_in_order<A: Protocol, B: Protocol, C: Protocol, D: Protocol, E: Protocol, F: Protocol, G: Protocol, H: Protocol, I: Protocol, J: Protocol, K: Protocol, L: Protocol>(m: (A::Model, B::Model, C::Model, D::Model, E::Model, F::Model, G::Model, H::Model, I::Model, J::Model, K::Model, L::Model), rest: Seq<u8>)
    requires
        A::wf_model(m.0),
        B::wf_model(m.1),
        C::wf_model(m.2),
        D::wf_model(m.3),
        E::wf_model(m.4),
        F::wf_model(m.5),
        G::wf_model(m.6),
        H::wf_model(m.7),
        I::wf_model(m.8),
        J::wf_model(m.9),
        K::wf_model(m.10),
        L::wf_model(m.11),
    ensures
        <(A, B, C, D, E, F, G, H, I, J, K, L) as Protocol>::spec_encode(m) == A::spec_encode(m.0) + B::spec_encode(m.1) + C::spec_encode(m.2) + D::spec_encode(m.3) + E::spec_encode(m.4) + F::spec_encode(m.5) + G::spec_encode(m.6) + H::spec_encode(m.7) + I::spec_encode(m.8) + J::spec_encode(m.9) + K::spec_encode(m.10) + L::spec_encode(m.11),
        <(A, B, C, D, E, F, G, H, I, J, K, L) as Protocol>::spec_decode(A::spec_encode(m.0) + B::spec_encode(m.1) + C::spec_encode(m.2) + D::spec_encode(m.3) + E::spec_encode(m.4) + F::spec_encode(m.5) + G::spec_encode(m.6) + H::spec_encode(m.7) + I::spec_encode(m.8) + J::spec_encode(m.9) + K::spec_encode(m.10) + L::spec_encode(m.11) + rest) == Ok::<((A::Model, B::Model, C::Model, D::Model, E::Model, F::Model, G::Model, H::Model, I::Model, J::Model, K::Model, L::Model), nat), ReadError>(
            (m, (A::spec_encode(m.0) + B::spec_encode(m.1) + C::spec_encode(m.2) + D::spec_encode(m.3) + E::spec_encode(m.4) + F::spec_encode(m.5) + G::spec_encode(m.6) + H::spec_encode(m.7) + I::spec_encode(m.8) + J::spec_encode(m.9) + K::spec_encode(m.10) + L::spec_encode(m.11)).len()),
        ),
{
    assert(<(A, B, C, D, E, F, G, H, I, J, K, L) as Protocol>::spec_encode(m) =~= A::spec_encode(m.0) + B::spec_encode(m.1) + C::spec_encode(m.2) + D::spec_encode(m.3) + E::spec_encode(m.4) + F::spec_encode(m.5) + G::spec_encode(m.6) + H::spec_encode(m.7) + I::spec_encode(m.8) + J::spec_encode(m.9) + K::spec_encode(m.10) + L::spec_encode(m.11));
    <(A, B, C, D, E, F, G, H, I, J, K, L) as Protocol>::lemma_encode_decode(m, rest);
}

} // verus!
