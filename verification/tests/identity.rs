use rand::rngs::OsRng;
use rand::RngCore;
use sqwok::crypto::identity::{E2eIdentity, IdentityError};

fn random_seed() -> [u8; 32] {
    let mut seed = [0u8; 32];
    OsRng.fill_bytes(&mut seed);
    seed
}

fn make_test_identity() -> E2eIdentity {
    E2eIdentity::from_key_bytes(&random_seed(), &random_seed()).unwrap()
}

#[test]
fn test_load_produces_consistent_keys() {
    let ed = random_seed();
    let x = random_seed();
    let id1 = E2eIdentity::from_key_bytes(&ed, &x).unwrap();
    let id2 = E2eIdentity::from_key_bytes(&ed, &x).unwrap();
    assert_eq!(id1.verifying_key(), id2.verifying_key());
    assert_eq!(id1.x25519_public(), id2.x25519_public());
}

#[test]
fn test_load_wrong_ed25519_size_fails() {
    let r = E2eIdentity::from_key_bytes(&[0u8; 16], &[0u8; 32]);
    assert!(matches!(r, Err(IdentityError::Ed25519KeyLength)));
}

#[test]
fn test_load_wrong_x25519_size_fails() {
    let r = E2eIdentity::from_key_bytes(&[0u8; 32], &[0u8; 16]);
    assert!(matches!(r, Err(IdentityError::X25519KeyLength)));
}

#[test]
fn test_load_missing_x25519_fails() {
    let r = E2eIdentity::from_key_bytes(&[0u8; 32], &[]);
    assert!(r.is_err());
}

#[test]
fn ed25519_length_is_checked_first() {
    let r = E2eIdentity::from_key_bytes(&[0u8; 31], &[0u8; 33]);
    assert!(matches!(r, Err(IdentityError::Ed25519KeyLength)));
}

#[test]
fn test_dh_is_symmetric() {
    let alice = make_test_identity();
    let bob = make_test_identity();
    let alice_secret = alice.dh(&bob.x25519_public());
    let bob_secret = bob.dh(&alice.x25519_public());
    assert_eq!(alice_secret, bob_secret, "X25519 DH must be symmetric");
}

#[test]
fn test_different_identities_have_different_dh_secrets() {
    let alice = make_test_identity();
    let bob = make_test_identity();
    let charlie = make_test_identity();
    let alice_bob = alice.dh(&bob.x25519_public());
    let alice_charlie = alice.dh(&charlie.x25519_public());
    assert_ne!(alice_bob, alice_charlie);
}

#[test]
fn test_sign_and_verify() {
    let id = make_test_identity();
    let message = b"sqwok test message";
    let sig = id.sign(message);
    let vk = ed25519_dalek::VerifyingKey::from_bytes(&id.verifying_key()).unwrap();
    let sig = ed25519_dalek::Signature::from_bytes(&sig);
    vk.verify_strict(message, &sig)
        .expect("signature must verify with the corresponding verifying key");
}

#[test]
fn test_sign_wrong_message_fails() {
    let id = make_test_identity();
    let sig = id.sign(b"original");
    let vk = ed25519_dalek::VerifyingKey::from_bytes(&id.verifying_key()).unwrap();
    let sig = ed25519_dalek::Signature::from_bytes(&sig);
    assert!(vk.verify_strict(b"tampered", &sig).is_err());
}

#[test]
fn test_ed25519_and_x25519_are_independent() {
    let ed_seed = random_seed();
    let id_a = E2eIdentity::from_key_bytes(&ed_seed, &random_seed()).unwrap();
    let id_b = E2eIdentity::from_key_bytes(&ed_seed, &random_seed()).unwrap();
    assert_eq!(id_a.verifying_key(), id_b.verifying_key());
    assert_ne!(id_a.x25519_public(), id_b.x25519_public());
}

#[test]
fn public_keys_match_the_dalek_derivation() {
    let ed = random_seed();
    let x = random_seed();
    let id = E2eIdentity::from_key_bytes(&ed, &x).unwrap();
    let expected_ed = ed25519_dalek::SigningKey::from_bytes(&ed).verifying_key().to_bytes();
    let expected_x = x25519_dalek::PublicKey::from(&x25519_dalek::StaticSecret::from(x)).to_bytes();
    assert_eq!(id.verifying_key(), expected_ed);
    assert_eq!(id.x25519_public(), expected_x);
    assert_ne!(id.verifying_key(), ed);
}
