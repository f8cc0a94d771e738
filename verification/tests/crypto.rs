use grey::crypto::{blake2b_256, build_assurance_message, ed25519_verify, Ed25519Keypair};
use grey::types::{Ed25519PublicKey, Ed25519Signature};

#[test]
fn test_sign_and_verify() {
    let keypair = Ed25519Keypair::generate();
    let message = b"jam protocol test message";
    let signature = keypair.sign(message);
    let public_key = keypair.public_key();

    assert!(ed25519_verify(&public_key, message, &signature));
}

#[test]
fn test_verify_wrong_message() {
    let keypair = Ed25519Keypair::generate();
    let signature = keypair.sign(b"correct message");
    let public_key = keypair.public_key();

    assert!(!ed25519_verify(&public_key, b"wrong message", &signature));
}

#[test]
fn test_verify_wrong_key() {
    let keypair1 = Ed25519Keypair::generate();
    let keypair2 = Ed25519Keypair::generate();
    let message = b"test message";
    let signature = keypair1.sign(message);

    assert!(!ed25519_verify(&keypair2.public_key(), message, &signature));
}

#[test]
fn test_deterministic_from_seed() {
    let seed = [42u8; 32];
    let kp1 = Ed25519Keypair::from_seed(&seed);
    let kp2 = Ed25519Keypair::from_seed(&seed);
    assert_eq!(kp1.public_key(), kp2.public_key());

    let msg = b"deterministic";
    assert_eq!(kp1.sign(msg).0, kp2.sign(msg).0);
}

#[test]
fn test_invalid_public_key() {
    // 0xff repeated is not a valid Ed25519 point (not on curve)
    let bad_key = Ed25519PublicKey([0xff; 32]);
    let sig = Ed25519Signature([0u8; 64]);
    assert!(!ed25519_verify(&bad_key, b"msg", &sig));
}

#[test]
fn ed25519_rfc8032_test_vector_one() {
    // RFC 8032, section 7.1, TEST 1 (empty message).
    let seed: [u8; 32] = [
        0x9d, 0x61, 0xb1, 0x9d, 0xef, 0xfd, 0x5a, 0x60, 0xba, 0x84, 0x4a, 0xf4, 0x92, 0xec, 0x2c,
        0xc4, 0x44, 0x49, 0xc5, 0x69, 0x7b, 0x32, 0x69, 0x19, 0x70, 0x3b, 0xac, 0x03, 0x1c, 0xae,
        0x7f, 0x60,
    ];
    let expected_public: [u8; 32] = [
        0xd7, 0x5a, 0x98, 0x01, 0x82, 0xb1, 0x0a, 0xb7, 0xd5, 0x4b, 0xfe, 0xd3, 0xc9, 0x64, 0x07,
        0x3a, 0x0e, 0xe1, 0x72, 0xf3, 0xda, 0xa6, 0x23, 0x25, 0xaf, 0x02, 0x1a, 0x68, 0xf7, 0x07,
        0x51, 0x1a,
    ];
    let keypair = Ed25519Keypair::from_seed(&seed);
    assert_eq!(keypair.public_key().0, expected_public);
    let signature = keypair.sign(b"");
    assert_eq!(
        signature.0[..8],
        [0xe5, 0x56, 0x43, 0x00, 0xc3, 0x60, 0xac, 0x72]
    );
    assert!(ed25519_verify(&keypair.public_key(), b"", &signature));
}

#[test]
fn ed25519_sign_verify_roundtrip_for_fixed_seeds() {
    for s in 0u8..8 {
        let keypair = Ed25519Keypair::from_seed(&[s.wrapping_mul(37); 32]);
        for len in [0usize, 1, 31, 64, 200] {
            let msg: Vec<u8> = (0..len).map(|i| (i as u8) ^ s).collect();
            let signature = keypair.sign(&msg);
            assert!(ed25519_verify(&keypair.public_key(), &msg, &signature));
            assert_eq!(keypair.sign(&msg), signature);
        }
    }
}

#[test]
fn ed25519_tampered_signature_rejected() {
    let keypair = Ed25519Keypair::from_seed(&[7u8; 32]);
    let mut signature = keypair.sign(b"payload");
    signature.0[0] ^= 1;
    assert!(!ed25519_verify(&keypair.public_key(), b"payload", &signature));
}

#[test]
fn blake2b_256_known_digest() {
    // Blake2b with a 32-byte digest of the empty input.
    let expected: [u8; 32] = [
        0x0e, 0x57, 0x51, 0xc0, 0x26, 0xe5, 0x43, 0xb2, 0xe8, 0xab, 0x2e, 0xb0, 0x60, 0x99, 0xda,
        0xa1, 0xd1, 0xe5, 0xdf, 0x47, 0x77, 0x8f, 0x77, 0x87, 0xfa, 0xab, 0x45, 0xcd, 0xf1, 0x2f,
        0xe3, 0xa8,
    ];
    assert_eq!(blake2b_256(&[]), expected);
    assert_ne!(blake2b_256(&[0]), expected);
}

#[test]
fn assurance_message_layout() {
    let parent = [3u8; 32];
    let bitfield = [0b10u8];
    let message = build_assurance_message(&parent, &bitfield);
    assert_eq!(message.len(), 13 + 32);
    assert_eq!(&message[..13], b"jam_available");
    let mut data = parent.to_vec();
    data.extend_from_slice(&bitfield);
    assert_eq!(&message[13..], &blake2b_256(&data));
}
