use sqwok::crypto::group_key::KeyChain;
use sqwok::crypto::message::{build_aad, decrypt_message, encrypt_message, MessageError};

fn new_sender() -> [u8; 16] {
    *uuid::Uuid::new_v4().as_bytes()
}

#[test]
fn test_encrypt_decrypt_roundtrip() {
    let keychain = KeyChain::generate_new();
    let sender = new_sender();
    let plaintext = b"hello world";
    let wire = encrypt_message(&keychain, &sender, plaintext).unwrap();
    let decrypted = decrypt_message(&keychain, &sender, &wire).unwrap();
    assert_eq!(decrypted, plaintext);
}

#[test]
fn test_wrong_key_fails() {
    let keychain1 = KeyChain::generate_new();
    let keychain2 = KeyChain::generate_new();
    let sender = new_sender();
    let wire = encrypt_message(&keychain1, &sender, b"secret").unwrap();
    let result = decrypt_message(&keychain2, &sender, &wire);
    assert!(result.is_err());
}

#[test]
fn test_wrong_sender_aad_fails() {
    let keychain = KeyChain::generate_new();
    let real_sender = new_sender();
    let fake_sender = new_sender();
    let wire = encrypt_message(&keychain, &real_sender, b"secret").unwrap();
    let result = decrypt_message(&keychain, &fake_sender, &wire);
    assert!(result.is_err());
}

#[test]
fn test_wire_too_short_fails() {
    let keychain = KeyChain::generate_new();
    let sender = new_sender();
    let result = decrypt_message(&keychain, &sender, &[0u8; 10]);
    assert!(result.is_err());
}

#[test]
fn test_nonces_differ_across_encryptions() {
    let keychain = KeyChain::generate_new();
    let sender = new_sender();
    let wire1 = encrypt_message(&keychain, &sender, b"msg1").unwrap();
    let wire2 = encrypt_message(&keychain, &sender, b"msg1").unwrap();
    assert_ne!(&wire1[4..16], &wire2[4..16], "two encryptions must produce different nonces");
}

#[test]
fn test_wire_format_structure() {
    let keychain = KeyChain::generate_new();
    let sender = new_sender();
    let plaintext = b"hello";
    let wire = encrypt_message(&keychain, &sender, plaintext).unwrap();
    assert_eq!(wire.len(), 4 + 12 + plaintext.len() + 16);
    let epoch = u32::from_le_bytes(wire[..4].try_into().unwrap());
    assert_eq!(epoch, 0);
}

#[test]
fn test_cross_epoch_decrypt() {
    let mut keychain = KeyChain::generate_new();
    let sender = new_sender();
    let wire0 = encrypt_message(&keychain, &sender, b"epoch zero").unwrap();
    keychain.rotate();
    let wire1 = encrypt_message(&keychain, &sender, b"epoch one").unwrap();
    let dec0 = decrypt_message(&keychain, &sender, &wire0).unwrap();
    let dec1 = decrypt_message(&keychain, &sender, &wire1).unwrap();
    assert_eq!(dec0, b"epoch zero");
    assert_eq!(dec1, b"epoch one");
}

#[test]
fn test_future_epoch_fails() {
    let keychain = KeyChain::generate_new();
    let mut rotated = KeyChain::generate_new();
    rotated.rotate();
    let sender = new_sender();
    let wire = encrypt_message(&rotated, &sender, b"future").unwrap();
    let result = decrypt_message(&keychain, &sender, &wire);
    assert!(result.is_err(), "must fail for unknown epoch");
    assert!(matches!(result, Err(MessageError::UnknownEpoch(1))));
}

#[test]
fn test_empty_plaintext_roundtrip() {
    let keychain = KeyChain::generate_new();
    let sender = new_sender();
    let wire = encrypt_message(&keychain, &sender, b"").unwrap();
    let decrypted = decrypt_message(&keychain, &sender, &wire).unwrap();
    assert!(decrypted.is_empty());
}

#[test]
fn test_large_plaintext_roundtrip() {
    let keychain = KeyChain::generate_new();
    let sender = new_sender();
    let plaintext = vec![0xABu8; 64 * 1024];
    let wire = encrypt_message(&keychain, &sender, &plaintext).unwrap();
    let decrypted = decrypt_message(&keychain, &sender, &wire).unwrap();
    assert_eq!(decrypted, plaintext);
}

#[test]
fn test_ciphertext_bit_flip_detected() {
    let keychain = KeyChain::generate_new();
    let sender = new_sender();
    let mut wire = encrypt_message(&keychain, &sender, b"secret").unwrap();
    wire[20] ^= 0x01;
    let result = decrypt_message(&keychain, &sender, &wire);
    assert!(result.is_err(), "GCM must detect ciphertext tampering");
}

#[test]
fn test_epoch_field_tamper_detected() {
    let mut keychain = KeyChain::generate_new();
    keychain.rotate();
    let sender = new_sender();
    let mut wire = encrypt_message(&keychain, &sender, b"hello").unwrap();
    let original_epoch = u32::from_le_bytes(wire[..4].try_into().unwrap());
    assert_eq!(original_epoch, 1);
    wire[..4].copy_from_slice(&0u32.to_le_bytes());
    let result = decrypt_message(&keychain, &sender, &wire);
    assert!(result.is_err(), "tampering with the epoch field must be detected via AAD");
}

#[test]
fn test_wire_exact_minimum_length_fails() {
    let keychain = KeyChain::generate_new();
    let sender = new_sender();
    let result = decrypt_message(&keychain, &sender, &[0u8; 31]);
    assert!(result.is_err());
    assert!(matches!(result, Err(MessageError::TooShort)));
}

#[test]
fn test_same_plaintext_produces_different_ciphertext() {
    let keychain = KeyChain::generate_new();
    let sender = new_sender();
    let wire1 = encrypt_message(&keychain, &sender, b"same").unwrap();
    let wire2 = encrypt_message(&keychain, &sender, b"same").unwrap();
    assert_ne!(wire1, wire2, "random nonces must produce different ciphertext for identical plaintext");
}

#[test]
fn encrypt_without_keys_fails() {
    let keychain = KeyChain::from_epochs(vec![]);
    let result = encrypt_message(&keychain, &new_sender(), b"x");
    assert!(matches!(result, Err(MessageError::NoKeys)));
}

#[test]
fn decrypt_with_wrong_key_reports_failed_authentication() {
    let sender = new_sender();
    let wire = encrypt_message(&KeyChain::generate_new(), &sender, b"x").unwrap();
    let result = decrypt_message(&KeyChain::generate_new(), &sender, &wire);
    assert!(matches!(result, Err(MessageError::DecryptFailed)));
}

#[test]
fn aad_is_epoch_then_sender() {
    let sender = [7u8; 16];
    let aad = build_aad(0x0A0B_0C0D, &sender);
    let mut expected = vec![0x0D, 0x0C, 0x0B, 0x0A];
    expected.extend_from_slice(&sender);
    assert_eq!(aad, expected);
}
