use vstd::prelude::*;

use crate::fr_order;
use ark_ff::BigInteger;
use ark_ff::Field;
use ark_ff::PrimeField;
use ark_serialize::CanonicalSerialize;
use ark_std::One;
use ark_std::UniformRand;
use ark_std::Zero;

verus! {

use vstd::arithmetic::power2::pow2;

/// An opaque holder for a field element of the outside crate; Verus sees
/// nothing inside it. Relies on `ark_ff::Fp` being `Copy`.
#[verifier::external_body]
pub struct FrVal(pub(crate) ark_bls12_381::Fr);

impl Clone for FrVal {
    #[verifier::external_body]
    fn clone(&self) -> (r: Self)
        ensures
            r == *self,
    {
        FrVal(self.0)
    }
}

impl Copy for FrVal {

}

#[verifier::external_type_specification]
#[verifier::external_body]
pub struct ExStdRng(ark_std::rand::rngs::StdRng);

/// The integer read from a byte string in little-endian order.
pub open spec fn le_int(s: Seq<u8>) -> int
    decreases s.len(),
{
    if s.len() == 0 {
        0
    } else {
        s[0] + 256 * le_int(s.drop_first())
    }
}

/// Byte `i` of the little-endian encoding of `v`.
pub open spec fn le_byte(v: int, i: int) -> u8 {
    (((v / (pow2((8 * i) as nat) as int)) % 256) as u8)
}

/// Bit `i` of the binary encoding of `v`, least significant first.
pub open spec fn bit_of(v: int, i: int) -> bool {
    ((v / (pow2(i as nat) as int)) % 2) == 1
}

/// An element of the scalar field of BLS12-381, modelled by its canonical
/// integer representative in `[0, fr_order())`.
#[derive(Clone, Copy)]
pub struct Scalar {
    pub(crate) inner: FrVal,
    pub(crate) val: Ghost<int>,
}

impl View for Scalar {
    type V = int;

    closed spec fn view(&self) -> int {
        self.val@
    }
}

impl Scalar {
    pub open spec fn wf(&self) -> bool {
        0 <= self@ < fr_order()
    }

    /// Relies on `ark_ff::Fp::from(u64)`: embeds a small integer into the field;
    /// the field order exceeds `2^64`, so no reduction happens.
    #[verifier::external_body]
    pub fn from_u64(n: u64) -> (r: Scalar)
        ensures
            r@ == n as int,
            r.wf(),
    {
        Scalar { inner: FrVal(ark_bls12_381::Fr::from(n)), val: Ghost(arbitrary()) }
    }

    /// Relies on `ark_std::Zero::zero` for the field: the additive identity.
    #[verifier::external_body]
    pub fn zero() -> (r: Scalar)
        ensures
            r@ == 0,
            r.wf(),
    {
        Scalar { inner: FrVal(ark_bls12_381::Fr::zero()), val: Ghost(arbitrary()) }
    }

    /// Relies on `ark_std::One::one` for the field: the multiplicative identity.
    #[verifier::external_body]
    pub fn one() -> (r: Scalar)
        ensures
            r@ == 1,
            r.wf(),
    {
        Scalar { inner: FrVal(ark_bls12_381::Fr::one()), val: Ghost(arbitrary()) }
    }

    /// Relies on field addition of `ark_ff::Fp`: addition of representatives
    /// modulo the field order.
    #[verifier::external_body]
    pub fn add(&self, o: &Scalar) -> (r: Scalar)
        ensures
            r@ == (self@ + o@) % fr_order(),
            r.wf(),
    {
        Scalar { inner: FrVal(self.inner.0 + o.inner.0), val: Ghost(arbitrary()) }
    }

    /// Relies on field subtraction of `ark_ff::Fp`.
    #[verifier::external_body]
    pub fn sub(&self, o: &Scalar) -> (r: Scalar)
        ensures
            r@ == (self@ - o@) % fr_order(),
            r.wf(),
    {
        Scalar { inner: FrVal(self.inner.0 - o.inner.0), val: Ghost(arbitrary()) }
    }

    /// Relies on field multiplication of `ark_ff::Fp`.
    #[verifier::external_body]
    pub fn mul(&self, o: &Scalar) -> (r: Scalar)
        ensures
            r@ == (self@ * o@) % fr_order(),
            r.wf(),
    {
        Scalar { inner: FrVal(self.inner.0 * o.inner.0), val: Ghost(arbitrary()) }
    }

    /// Relies on `ark_ff::Field::inverse`: `None` exactly on zero, and the
    /// inverse of anything else.
    #[verifier::external_body]
    pub fn inverse(&self) -> (r: Option<Scalar>)
        ensures
            r is Some <==> self@ != 0,
            r matches Some(s) ==> s.wf() && (s@ * self@) % fr_order() == 1,
    {
        match self.inner.0.inverse() {
            Some(inv) => Some(Scalar { inner: FrVal(inv), val: Ghost(arbitrary()) }),
            None => None,
        }
    }

    /// Relies on equality of `ark_ff::Fp`, which compares the canonical
    /// representatives.
    #[verifier::external_body]
    pub fn equals(&self, o: &Scalar) -> (r: bool)
        ensures
            r == (self@ == o@),
    {
        self.inner.0 == o.inner.0
    }

    /// Relies on `ark_ff::PrimeField::from_le_bytes_mod_order`: the bytes are
    /// read as a little-endian integer and reduced.
    #[verifier::external_body]
    pub fn from_le_bytes_mod_order(bytes: &Vec<u8>) -> (r: Scalar)
        ensures
            r@ == le_int(bytes@) % fr_order(),
            r.wf(),
    {
        Scalar { inner: FrVal(ark_bls12_381::Fr::from_le_bytes_mod_order(bytes)), val: Ghost(arbitrary()) }
    }

    /// Relies on `ark_std::UniformRand::rand`: some field element; nothing more
    /// is promised of a random draw.
    #[verifier::external_body]
    pub fn sample(rng: &mut ark_std::rand::rngs::StdRng) -> (r: Scalar)
        ensures
            r.wf(),
    {
        Scalar { inner: FrVal(ark_bls12_381::Fr::rand(rng)), val: Ghost(arbitrary()) }
    }

    /// Relies on `ark_serialize::CanonicalSerialize::serialize_compressed` for
    /// `ark_ff::Fp`: exactly the 32 little-endian bytes of the canonical
    /// representative.
    #[verifier::external_body]
    pub fn to_bytes(&self) -> (r: Vec<u8>)
        ensures
            r@.len() == 32,
            forall|i: int| 0 <= i < 32 ==> r@[i] == le_byte(self@, i),
    {
        let mut bytes = Vec::new();
        self.inner.0.serialize_compressed(&mut bytes).expect("field element fits");
        bytes
    }

    /// Relies on `ark_ff::PrimeField::into_bigint` and
    /// `ark_ff::BigInteger::to_bits_le`: the 256 bits of the canonical
    /// representative, least significant first.
    #[verifier::external_body]
    pub fn bits(&self) -> (r: Vec<bool>)
        ensures
            r@.len() == 256,
            forall|i: int| 0 <= i < 256 ==> r@[i] == bit_of(self@, i),
    {
        self.inner.0.into_bigint().to_bits_le()
    }
}

} // verus!
