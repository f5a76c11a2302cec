use fde::group::G1Elem;
use fde::scalar::Scalar;
use fde::transcript::Transcript;
use sha2::Digest;

#[test]
fn transcript_matches_direct_hashing() {
    // an empty label is framed as eight zero length bytes
    let mut t = Transcript::new();
    let s = t.next_scalar(&Vec::new());
    let digest = sha2::Sha256::digest(&[0u8; 8]);
    let expected = Scalar::from_le_bytes_mod_order(&digest.to_vec());
    assert!(s.equals(&expected));

    // a non-empty label: length prefix, then the bytes
    let mut t = Transcript::new();
    let s = t.next_scalar(&vec![7u8, 9u8]);
    let state = vec![2u8, 0, 0, 0, 0, 0, 0, 0, 7, 9];
    let digest = sha2::Sha256::digest(&state);
    let expected = Scalar::from_le_bytes_mod_order(&digest.to_vec());
    assert!(s.equals(&expected));

    // squeezing is stateful: the same label twice gives different scalars
    let mut t = Transcript::new();
    let a = t.next_scalar(&vec![1u8]);
    let b = t.next_scalar(&vec![1u8]);
    assert!(!a.equals(&b));
}

#[test]
fn le_bytes_reduction() {
    let b = vec![1u8, 1u8];
    assert!(Scalar::from_le_bytes_mod_order(&b).equals(&Scalar::from_u64(257)));
}

#[test]
fn point_serialization_is_stable() {
    let g = G1Elem::generator();
    let id = G1Elem::identity();
    let gb = g.to_bytes();
    assert_eq!(gb.len(), 48);
    assert_ne!(gb, id.to_bytes());
    assert_eq!(gb, g.to_bytes());
}
