use vstd::prelude::*;

use crate::fr_order;
use crate::scalar::Scalar;
use ark_ec::pairing::Pairing;
use ark_ec::CurveGroup;
use ark_ec::Group;
use ark_serialize::CanonicalSerialize;
use ark_std::Zero;

verus! {

/// Opaque holders for points of the outside crate; Verus sees nothing inside
/// them. They rely on the wrapped types being `Copy`.
#[verifier::external_body]
pub struct G1Val(pub(crate) ark_bls12_381::G1Projective);

impl Clone for G1Val {
    #[verifier::external_body]
    fn clone(&self) -> (r: Self)
        ensures
            r == *self,
    {
        G1Val(self.0)
    }
}

impl Copy for G1Val {

}

#[verifier::external_body]
pub struct G2Val(pub(crate) ark_bls12_381::G2Projective);

impl Clone for G2Val {
    #[verifier::external_body]
    fn clone(&self) -> (r: Self)
        ensures
            r == *self,
    {
        G2Val(self.0)
    }
}

impl Copy for G2Val {

}

#[verifier::external_body]
pub struct GtVal(pub(crate) ark_ec::pairing::PairingOutput<ark_bls12_381::Bls12_381>);

impl Clone for GtVal {
    #[verifier::external_body]
    fn clone(&self) -> (r: Self)
        ensures
            r == *self,
    {
        GtVal(self.0)
    }
}

impl Copy for GtVal {

}

/// The compressed serialization of the point of the first group whose discrete
/// logarithm with respect to the designated generator is `dlog`.
pub uninterp spec fn g1_ser(dlog: int) -> Seq<u8>;

/// A point of the prime-order group `G1` of BLS12-381, modelled by its
/// discrete logarithm with respect to the designated generator, an integer in
/// `[0, fr_order())`. Every constructor below keeps the point inside the
/// subgroup generated by the generator, where that logarithm exists and is
/// unique.
#[derive(Clone, Copy)]
pub struct G1Elem {
    inner: G1Val,
    dlog: Ghost<int>,
}

impl View for G1Elem {
    type V = int;

    closed spec fn view(&self) -> int {
        self.dlog@
    }
}

impl G1Elem {
    pub open spec fn wf(&self) -> bool {
        0 <= self@ < fr_order()
    }

    /// Relies on `ark_ec::PrimeGroup::generator`: the designated generator of `G1`.
    #[verifier::external_body]
    pub fn generator() -> (r: G1Elem)
        ensures
            r@ == 1,
            r.wf(),
    {
        G1Elem { inner: G1Val(ark_bls12_381::G1Projective::generator()), dlog: Ghost(arbitrary()) }
    }

    /// Relies on `ark_std::Zero::zero` for the group: the point at infinity.
    #[verifier::external_body]
    pub fn identity() -> (r: G1Elem)
        ensures
            r@ == 0,
            r.wf(),
    {
        G1Elem { inner: G1Val(ark_bls12_381::G1Projective::zero()), dlog: Ghost(arbitrary()) }
    }

    /// Relies on group addition of `ark_ec::short_weierstrass::Projective`:
    /// discrete logarithms add modulo the group order.
    #[verifier::external_body]
    pub fn add(&self, o: &G1Elem) -> (r: G1Elem)
        ensures
            r@ == (self@ + o@) % fr_order(),
            r.wf(),
    {
        G1Elem { inner: G1Val(self.inner.0 + o.inner.0), dlog: Ghost(arbitrary()) }
    }

    /// Relies on group subtraction of `ark_ec::short_weierstrass::Projective`.
    #[verifier::external_body]
    pub fn sub(&self, o: &G1Elem) -> (r: G1Elem)
        ensures
            r@ == (self@ - o@) % fr_order(),
            r.wf(),
    {
        G1Elem { inner: G1Val(self.inner.0 - o.inner.0), dlog: Ghost(arbitrary()) }
    }

    /// Relies on scalar multiplication of `ark_ec::short_weierstrass::Projective`:
    /// the discrete logarithm is multiplied by the scalar modulo the group order.
    #[verifier::external_body]
    pub fn mul_scalar(&self, s: &Scalar) -> (r: G1Elem)
        ensures
            r@ == (self@ * s@) % fr_order(),
            r.wf(),
    {
        G1Elem { inner: G1Val(self.inner.0 * s.inner.0), dlog: Ghost(arbitrary()) }
    }

    /// Relies on equality of `ark_ec::short_weierstrass::Projective`, which is
    /// equality of the underlying curve points; inside the prime-order subgroup
    /// points are equal exactly when their discrete logarithms are.
    #[verifier::external_body]
    pub fn equals(&self, o: &G1Elem) -> (r: bool)
        requires
            self.wf(),
            o.wf(),
        ensures
            r == (self@ == o@),
    {
        self.inner.0 == o.inner.0
    }

    /// Relies on `ark_ec::CurveGroup::into_affine` and
    /// `ark_serialize::CanonicalSerialize::serialize_compressed`: the canonical
    /// 48-byte compressed encoding, a function of the point alone.
    #[verifier::external_body]
    pub fn to_bytes(&self) -> (r: Vec<u8>)
        ensures
            r@ == g1_ser(self@),
            r@.len() == 48,
    {
        let mut bytes = Vec::new();
        self.inner.0.into_affine().serialize_compressed(&mut bytes).expect("point fits");
        bytes
    }
}

/// A point of the prime-order group `G2` of BLS12-381, modelled by its
/// discrete logarithm with respect to the designated `G2` generator.
#[derive(Clone, Copy)]
pub struct G2Elem {
    inner: G2Val,
    dlog: Ghost<int>,
}

impl View for G2Elem {
    type V = int;

    closed spec fn view(&self) -> int {
        self.dlog@
    }
}

impl G2Elem {
    pub open spec fn wf(&self) -> bool {
        0 <= self@ < fr_order()
    }

    /// Relies on `ark_ec::PrimeGroup::generator`: the designated generator of `G2`.
    #[verifier::external_body]
    pub fn generator() -> (r: G2Elem)
        ensures
            r@ == 1,
            r.wf(),
    {
        G2Elem { inner: G2Val(ark_bls12_381::G2Projective::generator()), dlog: Ghost(arbitrary()) }
    }

    /// Relies on group subtraction of `ark_ec::short_weierstrass::Projective`.
    #[verifier::external_body]
    pub fn sub(&self, o: &G2Elem) -> (r: G2Elem)
        ensures
            r@ == (self@ - o@) % fr_order(),
            r.wf(),
    {
        G2Elem { inner: G2Val(self.inner.0 - o.inner.0), dlog: Ghost(arbitrary()) }
    }

    /// Relies on scalar multiplication of `ark_ec::short_weierstrass::Projective`.
    #[verifier::external_body]
    pub fn mul_scalar(&self, s: &Scalar) -> (r: G2Elem)
        ensures
            r@ == (self@ * s@) % fr_order(),
            r.wf(),
    {
        G2Elem { inner: G2Val(self.inner.0 * s.inner.0), dlog: Ghost(arbitrary()) }
    }
}

/// An element of the pairing target group, modelled by its discrete logarithm
/// with respect to `e(g, h)`, the pairing of the two generators.
#[derive(Clone, Copy)]
pub struct GtElem {
    inner: GtVal,
    dlog: Ghost<int>,
}

impl View for GtElem {
    type V = int;

    closed spec fn view(&self) -> int {
        self.dlog@
    }
}

impl GtElem {
    pub open spec fn wf(&self) -> bool {
        0 <= self@ < fr_order()
    }

    /// Relies on equality of `ark_ec::pairing::PairingOutput`; the pairing of
    /// the generators has the full prime order, so elements of its span are
    /// equal exactly when their discrete logarithms are.
    #[verifier::external_body]
    pub fn equals(&self, o: &GtElem) -> (r: bool)
        requires
            self.wf(),
            o.wf(),
        ensures
            r == (self@ == o@),
    {
        self.inner.0 == o.inner.0
    }
}

/// Relies on `ark_ec::pairing::Pairing::pairing` being bilinear and
/// non-degenerate: `e(a·g, b·h) = e(g, h)^(a·b)`.
#[verifier::external_body]
pub fn pairing(p: &G1Elem, q: &G2Elem) -> (r: GtElem)
    ensures
        r@ == (p@ * q@) % fr_order(),
        r.wf(),
{
    GtElem {
        inner: GtVal(ark_bls12_381::Bls12_381::pairing(p.inner.0, q.inner.0)),
        dlog: Ghost(arbitrary()),
    }
}

} // verus!
