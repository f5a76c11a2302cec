use vstd::prelude::*;

pub mod scalar;
pub mod group;
pub mod poly;
pub mod transcript;
pub mod kzg;
pub mod elgamal;
pub mod range_proof;

verus! {

/// Order of the scalar field of the BLS12-381 pairing curve. Every scalar this
/// library works with is modelled as an integer in `[0, fr_order())`, and every
/// point of the prime-order groups by its discrete logarithm with respect to
/// the designated generator, an integer in the same range.
pub open spec fn fr_order() -> int {
    0x73eda753299d7d483339d80809a1d80553bda402fffe5bfeffffffff00000001int
}

/// `(base ^ e) % fr_order()`, by the naive recursion.
pub open spec fn pow_mod(base: int, e: nat) -> int
    decreases e,
{
    if e == 0 {
        1
    } else {
        (pow_mod(base, (e - 1) as nat) * (base % fr_order())) % fr_order()
    }
}

/// The failures of proving and verifying: a domain whose size the field cannot
/// host, a polynomial too long for the reference string, and a witness outside
/// the claimed range.
#[derive(Clone, Copy, Debug, PartialEq, Eq, Structural)]
pub enum Error {
    BadDomainSize,
    DegreeTooLarge,
    RangeProofInvalidWitness,
}

} // verus!
