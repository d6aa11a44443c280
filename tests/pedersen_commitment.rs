use curve25519_dalek::constants::RISTRETTO_BASEPOINT_POINT;
use curve25519_dalek::ristretto::RistrettoPoint;
use curve25519_dalek::scalar::Scalar;
use pedersen_merkle::PedersenCommitment;
use sha2::{Digest, Sha512};

#[test]
fn test_pedersen_commitment() {
    let pc = PedersenCommitment::new();

    let value = 42u64;
    let blinding = pc.random_blinding().unwrap();

    let commitment = pc.commit(value, &blinding);

    assert!(pc.verify(&commitment, value, &blinding));

    assert!(!pc.verify(&commitment, value + 1, &blinding));
    assert!(!pc.verify(&commitment, value, &pc.random_blinding().unwrap()));
}

#[test]
fn test_homomorphic_property() {
    let pc = PedersenCommitment::new();

    let v1 = 10u64;
    let r1 = pc.random_blinding().unwrap();
    let c1 = pc.commit(v1, &r1);

    let v2 = 20u64;
    let r2 = pc.random_blinding().unwrap();
    let c2 = pc.commit(v2, &r2);

    let v_sum = v1 + v2;
    let r_sum = r1 + r2;
    let c_sum = c1 + c2;

    assert!(pc.verify(&c_sum, v_sum, &r_sum));
}

#[test]
fn commit_is_value_times_g_plus_blinding_times_h() {
    let pc = PedersenCommitment::new();
    let digest = Sha512::digest(b"Pedersen Commitment Generator H");
    let mut bytes = [0u8; 64];
    bytes.copy_from_slice(&digest);
    let h = RistrettoPoint::from_uniform_bytes(&bytes);
    let r = Scalar::from(7u64);
    let expected = RISTRETTO_BASEPOINT_POINT * Scalar::from(42u64) + h * r;
    assert_eq!(pc.commit(42, &r), expected);
    assert_eq!(pc.commit(1, &Scalar::ZERO), RISTRETTO_BASEPOINT_POINT);
    assert_eq!(pc.commit(0, &Scalar::ONE), h);
}

#[test]
fn commit_is_deterministic_across_engines() {
    let r = Scalar::from(123456789u64);
    let a = PedersenCommitment::new().commit(u64::MAX, &r);
    let b = PedersenCommitment::new().commit(u64::MAX, &r);
    assert_eq!(a, b);
    assert!(PedersenCommitment::new().verify(&a, u64::MAX, &r));
    assert!(!PedersenCommitment::new().verify(&a, u64::MAX - 1, &r));
}

#[test]
fn fresh_blindings_differ() {
    let pc = PedersenCommitment::new();
    let a = pc.random_blinding().unwrap();
    let b = pc.random_blinding().unwrap();
    assert_ne!(a, b);
    assert_ne!(pc.commit(5, &a), pc.commit(5, &b));
}

#[test]
fn homomorphism_on_fixed_values() {
    let pc = PedersenCommitment::new();
    let r1 = Scalar::from(3u64);
    let r2 = Scalar::from(4u64);
    let sum = pc.commit(10, &r1) + pc.commit(20, &r2);
    assert_eq!(sum, pc.commit(30, &Scalar::from(7u64)));
    assert!(pc.verify(&sum, 30, &(r1 + r2)));
    assert!(!pc.verify(&sum, 31, &(r1 + r2)));
}

#[test]
fn blinding_from_bytes_reduces_little_endian() {
    let mut b = [0u8; 32];
    b[0] = 5;
    b[1] = 1;
    assert_eq!(pedersen_merkle::blinding_from_bytes(b), Scalar::from(261u64));
    let ones = [0xffu8; 32];
    assert_eq!(pedersen_merkle::blinding_from_bytes(ones), Scalar::from_bytes_mod_order(ones));
    assert_ne!(pedersen_merkle::blinding_from_bytes(ones).to_bytes(), ones);
}
