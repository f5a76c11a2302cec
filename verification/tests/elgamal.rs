use fde::elgamal::ExponentialElGamal;
use fde::group::G1Elem;
use fde::scalar::Scalar;
use ark_std::rand::rngs::StdRng;
use ark_std::rand::SeedableRng;

#[test]
fn exponential_elgamal() {
    let rng = &mut StdRng::seed_from_u64(42);
    let decryption_key = Scalar::sample(rng);
    let g = G1Elem::generator();
    let encryption_key = g.mul_scalar(&decryption_key);

    // completeness
    let data = Scalar::from_u64(12342526);
    let encrypted = ExponentialElGamal::encrypt(&data, &encryption_key, rng);
    let decrypted = ExponentialElGamal::decrypt_exp(&encrypted, &decryption_key);
    assert!(decrypted.equals(&g.mul_scalar(&data)));

    // soundness
    let data = Scalar::from_u64(12342526);
    let invalid_decryption_key = decryption_key.add(&Scalar::from_u64(123));
    let encrypted = ExponentialElGamal::encrypt(&data, &encryption_key, rng);
    let decrypted = ExponentialElGamal::decrypt_exp(&encrypted, &invalid_decryption_key);
    assert!(!decrypted.equals(&g.mul_scalar(&data)));

    // with brute force check
    let data = Scalar::from_u64(12);
    let encrypted = ExponentialElGamal::encrypt(&data, &encryption_key, rng);
    let decrypted = ExponentialElGamal::decrypt(&encrypted, &decryption_key);
    assert!(decrypted.equals(&data));
}

#[test]
fn elgamal_homomorphism() {
    let a = Scalar::from_u64(1);
    let b = Scalar::from_u64(10);
    let c = Scalar::from_u64(100);
    let ra = Scalar::from_u64(2);
    let rb = Scalar::from_u64(20);
    let rc = Scalar::from_u64(200);

    let g = G1Elem::generator();
    let decryption_key = Scalar::from_u64(1234567);
    let encryption_key = g.mul_scalar(&decryption_key);

    let ea = ExponentialElGamal::encrypt_with_randomness(&a, &encryption_key, &ra);
    let eb = ExponentialElGamal::encrypt_with_randomness(&b, &encryption_key, &rb);
    let ec = ExponentialElGamal::encrypt_with_randomness(&c, &encryption_key, &rc);

    let sum = a.add(&b).add(&c);
    let rsum = ra.add(&rb).add(&rc);
    let esum = ea.add(&eb).add(&ec);

    assert!(esum.c0().equals(&g.mul_scalar(&rsum)));
    assert!(esum.c1().equals(&g.mul_scalar(&sum).add(&encryption_key.mul_scalar(&rsum))));
}

#[test]
fn scalar_arithmetic_round_trips() {
    let two = Scalar::from_u64(2);
    let three = Scalar::from_u64(3);
    assert!(two.add(&three).equals(&Scalar::from_u64(5)));
    assert!(two.mul(&three).equals(&Scalar::from_u64(6)));
    assert!(three.sub(&two).equals(&Scalar::one()));
    let inv = three.inverse().unwrap();
    assert!(inv.mul(&three).equals(&Scalar::one()));
    assert!(Scalar::zero().inverse().is_none());
    // little-endian canonical serialization
    let bytes = Scalar::from_u64(258).to_bytes();
    assert_eq!(bytes.len(), 32);
    assert_eq!(bytes[0], 2);
    assert_eq!(bytes[1], 1);
    assert_eq!(bytes[2], 0);
    // bit decomposition, least significant first
    let bits = Scalar::from_u64(6).bits();
    assert_eq!(bits.len(), 256);
    assert!(!bits[0]);
    assert!(bits[1]);
    assert!(bits[2]);
    assert!(!bits[3]);
}
