use fde::kzg::{Kzg, Powers};
use fde::poly::Poly;
use fde::range_proof::RangeProof;
use fde::scalar::Scalar;
use ark_std::rand::rngs::StdRng;
use ark_std::rand::SeedableRng;
use fde::Error;

const LOG_2_UPPER_BOUND: usize = 8; // 2^8

fn test_powers() -> Powers {
    // KZG setup simulation: draw a trapdoor and forget it
    let rng = &mut StdRng::seed_from_u64(7);
    let tau = Scalar::sample(rng);
    Powers::unsafe_setup(&tau, 4 * LOG_2_UPPER_BOUND)
}

#[test]
fn range_proof_success() {
    let rng = &mut StdRng::seed_from_u64(42);
    let powers = test_powers();

    let z = Scalar::from_u64(100);
    let proof = RangeProof::new(&z, LOG_2_UPPER_BOUND, &powers, rng).unwrap();
    assert!(proof.verify(LOG_2_UPPER_BOUND, &powers));

    let z = Scalar::from_u64(255);
    let proof = RangeProof::new(&z, LOG_2_UPPER_BOUND, &powers, rng).unwrap();
    assert!(proof.verify(LOG_2_UPPER_BOUND, &powers));
}

#[test]
fn range_proof_with_invalid_size_fails() {
    let rng = &mut StdRng::seed_from_u64(42);
    let powers = test_powers();

    let z = Scalar::from_u64(100);
    let proof = RangeProof::new(&z, LOG_2_UPPER_BOUND, &powers, rng).unwrap();
    assert!(!proof.verify(LOG_2_UPPER_BOUND - 1, &powers));
}

#[test]
fn range_proof_with_too_large_z_fails_1() {
    let rng = &mut StdRng::seed_from_u64(42);
    let powers = test_powers();

    let z = Scalar::from_u64(256);
    let result = RangeProof::new(&z, LOG_2_UPPER_BOUND, &powers, rng);
    assert!(matches!(result, Err(Error::RangeProofInvalidWitness)));
}

#[test]
fn range_proof_with_too_large_z_fails_2() {
    let rng = &mut StdRng::seed_from_u64(42);
    let powers = test_powers();

    let z = Scalar::from_u64(300);
    let result = RangeProof::new(&z, LOG_2_UPPER_BOUND, &powers, rng);
    assert!(matches!(result, Err(Error::RangeProofInvalidWitness)));
}

#[test]
fn range_proof_structural_errors() {
    let rng = &mut StdRng::seed_from_u64(42);
    let powers = test_powers();
    let z = Scalar::from_u64(100);

    // not a power of two
    let result = RangeProof::new(&z, 6, &powers, rng);
    assert!(matches!(result, Err(Error::BadDomainSize)));
    // too small
    let result = RangeProof::new(&z, 0, &powers, rng);
    assert!(matches!(result, Err(Error::BadDomainSize)));
    // reference string shorter than 4n
    let short = Powers::unsafe_setup(&Scalar::from_u64(5), 10);
    let result = RangeProof::new(&z, LOG_2_UPPER_BOUND, &short, rng);
    assert!(matches!(result, Err(Error::DegreeTooLarge)));
}

#[test]
fn range_proof_tampering_fails() {
    let rng = &mut StdRng::seed_from_u64(42);
    let powers = test_powers();
    let z = Scalar::from_u64(100);
    let proof = RangeProof::new(&z, LOG_2_UPPER_BOUND, &powers, rng).unwrap();
    assert!(proof.verify(LOG_2_UPPER_BOUND, &powers));

    let one = Scalar::one();
    let g = fde::group::G1Elem::generator();

    let mut p = RangeProof::new(&z, LOG_2_UPPER_BOUND, &powers, rng).unwrap();
    p.evaluations.g = p.evaluations.g.add(&one);
    assert!(!p.verify(LOG_2_UPPER_BOUND, &powers));

    let mut p = RangeProof::new(&z, LOG_2_UPPER_BOUND, &powers, rng).unwrap();
    p.evaluations.g_omega = p.evaluations.g_omega.add(&one);
    assert!(!p.verify(LOG_2_UPPER_BOUND, &powers));

    let mut p = RangeProof::new(&z, LOG_2_UPPER_BOUND, &powers, rng).unwrap();
    p.evaluations.w_cap = p.evaluations.w_cap.add(&one);
    assert!(!p.verify(LOG_2_UPPER_BOUND, &powers));

    let mut p = RangeProof::new(&z, LOG_2_UPPER_BOUND, &powers, rng).unwrap();
    p.commitments.f = p.commitments.f.add(&g);
    assert!(!p.verify(LOG_2_UPPER_BOUND, &powers));

    let mut p = RangeProof::new(&z, LOG_2_UPPER_BOUND, &powers, rng).unwrap();
    p.commitments.g = p.commitments.g.add(&g);
    assert!(!p.verify(LOG_2_UPPER_BOUND, &powers));

    let mut p = RangeProof::new(&z, LOG_2_UPPER_BOUND, &powers, rng).unwrap();
    p.commitments.q = p.commitments.q.add(&g);
    assert!(!p.verify(LOG_2_UPPER_BOUND, &powers));

    let mut p = RangeProof::new(&z, LOG_2_UPPER_BOUND, &powers, rng).unwrap();
    p.proofs.aggregate = p.proofs.aggregate.add(&g);
    assert!(!p.verify(LOG_2_UPPER_BOUND, &powers));

    let mut p = RangeProof::new(&z, LOG_2_UPPER_BOUND, &powers, rng).unwrap();
    p.proofs.shifted = p.proofs.shifted.add(&g);
    assert!(!p.verify(LOG_2_UPPER_BOUND, &powers));
}

#[test]
fn kzg_round_trip_scalar() {
    let powers = test_powers();
    let mut coeffs = Vec::new();
    for c in [3u64, 1, 4, 1, 5, 9, 2, 6] {
        coeffs.push(Scalar::from_u64(c));
    }
    let p = Poly::from_coeffs(&coeffs);
    let u = Scalar::from_u64(7);
    let v = p.eval_at(&u);

    let commitment = powers.commit_g1(&p).unwrap();
    let witness = Kzg::witness(&p, &u);
    let witness_commitment = powers.commit_g1(&witness).unwrap();

    assert!(Kzg::verify_scalar(&witness_commitment, &commitment, &u, &v, &powers));
    let wrong = v.add(&Scalar::one());
    assert!(!Kzg::verify_scalar(&witness_commitment, &commitment, &u, &wrong, &powers));
}

#[test]
fn commit_rejects_long_polynomials() {
    let powers = Powers::unsafe_setup(&Scalar::from_u64(11), 2);
    let mut coeffs = Vec::new();
    for c in [1u64, 2, 3, 4] {
        coeffs.push(Scalar::from_u64(c));
    }
    let p = Poly::from_coeffs(&coeffs);
    assert!(matches!(powers.commit_g1(&p), Err(Error::DegreeTooLarge)));
    let mut short = Vec::new();
    for c in [1u64, 2, 3] {
        short.push(Scalar::from_u64(c));
    }
    let p = Poly::from_coeffs(&short);
    assert!(powers.commit_g1(&p).is_ok());
}
