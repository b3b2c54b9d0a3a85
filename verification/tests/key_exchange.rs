use rand::rngs::OsRng;
use rand::RngCore;
use sqwok::crypto::group_key::KeyChain;
use sqwok::crypto::identity::E2eIdentity;
use sqwok::crypto::key_exchange::{
    decrypt_key_bundle, derive_wrapping_key, encrypt_key_bundle, EncryptedKeyBundle, KeyExchangeError,
};

fn make_test_identity() -> E2eIdentity {
    let mut a = [0u8; 32];
    let mut b = [0u8; 32];
    OsRng.fill_bytes(&mut a);
    OsRng.fill_bytes(&mut b);
    E2eIdentity::from_key_bytes(&a, &b).unwrap()
}

#[test]
fn test_single_epoch_roundtrip() {
    let alice = make_test_identity();
    let bob = make_test_identity();
    let kc = KeyChain::generate_new();
    let bundle = encrypt_key_bundle(&alice, &bob.x25519_public(), kc.all_epochs()).unwrap();
    let decrypted =
        decrypt_key_bundle(&bob, &alice.x25519_public(), &alice.verifying_key(), &bundle).unwrap();
    assert_eq!(decrypted.len(), 1);
    assert_eq!(decrypted[0].epoch, 0);
    assert_eq!(decrypted[0].key, kc.get(0).unwrap().key);
}

#[test]
fn test_multi_epoch_roundtrip() {
    let alice = make_test_identity();
    let bob = make_test_identity();
    let mut kc = KeyChain::generate_new();
    kc.rotate();
    kc.rotate();
    let bundle = encrypt_key_bundle(&alice, &bob.x25519_public(), kc.all_epochs()).unwrap();
    let decrypted =
        decrypt_key_bundle(&bob, &alice.x25519_public(), &alice.verifying_key(), &bundle).unwrap();
    assert_eq!(decrypted.len(), 3);
    for epoch in 0u32..3 {
        assert_eq!(decrypted[epoch as usize].epoch, epoch);
        assert_eq!(decrypted[epoch as usize].key, kc.get(epoch).unwrap().key);
    }
}

#[test]
fn test_wrong_signer_verification_fails() {
    let alice = make_test_identity();
    let bob = make_test_identity();
    let charlie = make_test_identity();
    let kc = KeyChain::generate_new();
    let bundle = encrypt_key_bundle(&alice, &bob.x25519_public(), kc.all_epochs()).unwrap();
    let result = decrypt_key_bundle(&bob, &alice.x25519_public(), &charlie.verifying_key(), &bundle);
    assert!(result.is_err(), "signature verification must fail for wrong signer");
}

#[test]
fn test_wrong_recipient_dh_decryption_fails() {
    let alice = make_test_identity();
    let bob = make_test_identity();
    let charlie = make_test_identity();
    let kc = KeyChain::generate_new();
    let bundle = encrypt_key_bundle(&alice, &bob.x25519_public(), kc.all_epochs()).unwrap();
    let result = decrypt_key_bundle(&charlie, &alice.x25519_public(), &alice.verifying_key(), &bundle);
    assert!(result.is_err(), "AES-GCM must fail when DH secret is for a different recipient");
}

#[test]
fn test_empty_epoch_list_roundtrip() {
    let alice = make_test_identity();
    let bob = make_test_identity();
    let bundle = encrypt_key_bundle(&alice, &bob.x25519_public(), &[]).unwrap();
    let decrypted =
        decrypt_key_bundle(&bob, &alice.x25519_public(), &alice.verifying_key(), &bundle).unwrap();
    assert!(decrypted.is_empty());
}

#[test]
fn test_tampered_epoch_blob_fails() {
    let alice = make_test_identity();
    let bob = make_test_identity();
    let kc = KeyChain::generate_new();
    let mut bundle = encrypt_key_bundle(&alice, &bob.x25519_public(), kc.all_epochs()).unwrap();
    bundle.epochs[0].1[15] ^= 0x01;
    let result = decrypt_key_bundle(&bob, &alice.x25519_public(), &alice.verifying_key(), &bundle);
    assert!(result.is_err(), "tampered blob must be detected");
}

#[test]
fn test_reordered_epochs_fails_signature() {
    let alice = make_test_identity();
    let bob = make_test_identity();
    let mut kc = KeyChain::generate_new();
    kc.rotate();
    let mut bundle = encrypt_key_bundle(&alice, &bob.x25519_public(), kc.all_epochs()).unwrap();
    bundle.epochs.swap(0, 1);
    let result = decrypt_key_bundle(&bob, &alice.x25519_public(), &alice.verifying_key(), &bundle);
    assert!(result.is_err(), "reordering epochs must invalidate the signature");
}

#[test]
fn test_tampered_signature_fails() {
    let alice = make_test_identity();
    let bob = make_test_identity();
    let kc = KeyChain::generate_new();
    let mut bundle = encrypt_key_bundle(&alice, &bob.x25519_public(), kc.all_epochs()).unwrap();
    bundle.signature[0] ^= 0xFF;
    let result = decrypt_key_bundle(&bob, &alice.x25519_public(), &alice.verifying_key(), &bundle);
    assert!(result.is_err(), "corrupted signature must fail verification");
}

#[test]
fn test_truncated_signature_fails() {
    let alice = make_test_identity();
    let bob = make_test_identity();
    let kc = KeyChain::generate_new();
    let mut bundle = encrypt_key_bundle(&alice, &bob.x25519_public(), kc.all_epochs()).unwrap();
    bundle.signature.truncate(32);
    let result = decrypt_key_bundle(&bob, &alice.x25519_public(), &alice.verifying_key(), &bundle);
    assert!(matches!(result, Err(KeyExchangeError::InvalidSignatureLength)));
}

#[test]
fn test_truncated_epoch_blob_fails() {
    let alice = make_test_identity();
    let bob = make_test_identity();
    let kc = KeyChain::generate_new();
    let bundle = encrypt_key_bundle(&alice, &bob.x25519_public(), kc.all_epochs()).unwrap();
    let short_bundle = EncryptedKeyBundle {
        epochs: vec![(0, vec![0u8; 5])],
        signature: bundle.signature.clone(),
    };
    let result = decrypt_key_bundle(&bob, &alice.x25519_public(), &alice.verifying_key(), &short_bundle);
    assert!(result.is_err());
}

#[test]
fn test_bidirectional_key_exchange() {
    let alice = make_test_identity();
    let bob = make_test_identity();
    let kc = KeyChain::generate_new();
    let bundle_ab = encrypt_key_bundle(&alice, &bob.x25519_public(), kc.all_epochs()).unwrap();
    let dec_ab =
        decrypt_key_bundle(&bob, &alice.x25519_public(), &alice.verifying_key(), &bundle_ab).unwrap();
    assert_eq!(dec_ab[0].key, kc.get(0).unwrap().key);
    let bundle_ba = encrypt_key_bundle(&bob, &alice.x25519_public(), kc.all_epochs()).unwrap();
    let dec_ba =
        decrypt_key_bundle(&alice, &bob.x25519_public(), &bob.verifying_key(), &bundle_ba).unwrap();
    assert_eq!(dec_ba[0].key, kc.get(0).unwrap().key);
}

#[test]
fn test_epoch_aad_prevents_epoch_swap() {
    let alice = make_test_identity();
    let bob = make_test_identity();
    let mut kc = KeyChain::generate_new();
    kc.rotate();
    let bundle = encrypt_key_bundle(&alice, &bob.x25519_public(), kc.all_epochs()).unwrap();
    let swapped_epochs = vec![(1u32, bundle.epochs[0].1.clone())];
    let mut sign_payload = Vec::new();
    for (epoch, blob) in &swapped_epochs {
        sign_payload.extend_from_slice(&epoch.to_le_bytes());
        sign_payload.extend_from_slice(blob);
    }
    let signature = alice.sign(&sign_payload).to_vec();
    let swapped_bundle = EncryptedKeyBundle { epochs: swapped_epochs, signature };
    let result = decrypt_key_bundle(&bob, &alice.x25519_public(), &alice.verifying_key(), &swapped_bundle);
    assert!(matches!(result, Err(KeyExchangeError::DecryptFailed(1))));
}

#[test]
fn bundle_blobs_are_nonce_plus_sealed_key() {
    let alice = make_test_identity();
    let bob = make_test_identity();
    let kc = KeyChain::generate_new();
    let bundle = encrypt_key_bundle(&alice, &bob.x25519_public(), kc.all_epochs()).unwrap();
    assert_eq!(bundle.epochs.len(), 1);
    assert_eq!(bundle.epochs[0].0, 0);
    // 12-byte nonce, 32-byte key, 16-byte tag
    assert_eq!(bundle.epochs[0].1.len(), 12 + 32 + 16);
    assert_eq!(bundle.signature.len(), 64);
}

#[test]
fn wrapping_key_is_symmetric_in_the_two_parties() {
    let alice = make_test_identity();
    let bob = make_test_identity();
    let a_pub = alice.x25519_public();
    let b_pub = bob.x25519_public();
    let shared_a = alice.dh(&b_pub);
    let shared_b = bob.dh(&a_pub);
    let info = b"sqwok-key-wrap-v1";
    let k1 = derive_wrapping_key(&shared_a, &a_pub, &b_pub, info);
    let k2 = derive_wrapping_key(&shared_b, &b_pub, &a_pub, info);
    assert_eq!(k1, k2);
    assert_ne!(k1, shared_a);
}
