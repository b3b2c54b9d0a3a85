use rand::rngs::OsRng;
use rand::RngCore;
use sqwok::crypto::group_key::KeyChain;
use sqwok::crypto::identity::E2eIdentity;
use sqwok::crypto::{
    body_for_sender, bundle_to_wire_payload, message_body_for_display, parse_key_bundle_from_wire, ChatCrypto,
    ChatCryptoError, WireError,
};

fn identity() -> E2eIdentity {
    let mut a = [0u8; 32];
    let mut b = [0u8; 32];
    OsRng.fill_bytes(&mut a);
    OsRng.fill_bytes(&mut b);
    E2eIdentity::from_key_bytes(&a, &b).unwrap()
}

fn sender() -> [u8; 16] {
    *uuid::Uuid::new_v4().as_bytes()
}

#[test]
fn encrypt_decrypt_text_roundtrip() {
    let c = ChatCrypto::create_new(identity());
    assert_eq!(c.current_epoch(), Some(0));
    let s = sender();
    let (ct, epoch) = c.encrypt(&s, "hello, wörld").unwrap();
    assert_eq!(epoch, 0);
    assert_eq!(c.decrypt(&s, &ct).unwrap(), "hello, wörld");
}

#[test]
fn decrypt_rejects_bad_base64() {
    let c = ChatCrypto::create_new(identity());
    assert_eq!(c.decrypt(&sender(), "not base64!!"), Err(ChatCryptoError::Base64));
}

#[test]
fn decrypt_rejects_foreign_key() {
    let a = ChatCrypto::create_new(identity());
    let b = ChatCrypto::create_new(identity());
    let s = sender();
    let (ct, _) = a.encrypt(&s, "secret").unwrap();
    assert!(matches!(b.decrypt(&s, &ct), Err(ChatCryptoError::Message(_))));
}

#[test]
fn empty_crypto_cannot_encrypt() {
    let c = ChatCrypto::from_empty(identity());
    assert_eq!(c.current_epoch(), None);
    assert!(c.encrypt(&sender(), "x").is_err());
}

#[test]
fn load_needs_keys() {
    assert!(ChatCrypto::load(identity(), None).is_none());
    let kc = KeyChain::generate_new();
    let c = ChatCrypto::load(identity(), Some(kc)).unwrap();
    assert_eq!(c.current_epoch(), Some(0));
}

#[test]
fn rotate_adds_an_epoch() {
    let mut c = ChatCrypto::create_new(identity());
    let s = sender();
    let (old_ct, _) = c.encrypt(&s, "before").unwrap();
    assert_eq!(c.rotate_key(), 1);
    assert_eq!(c.current_epoch(), Some(1));
    let (_, epoch) = c.encrypt(&s, "after").unwrap();
    assert_eq!(epoch, 1);
    assert_eq!(c.decrypt(&s, &old_ct).unwrap(), "before");
}

#[test]
fn key_bundle_reaches_new_member() {
    let mut alice = ChatCrypto::create_new(identity());
    alice.rotate_key();
    let mut bob = ChatCrypto::from_empty(identity());
    let bob_pub = bob.identity().x25519_public();
    let bundle = alice.prepare_key_bundle(&bob_pub, true).unwrap();
    assert_eq!(bundle.epochs.len(), 2);
    let wire = bundle_to_wire_payload(&bundle, "bob-uuid");
    assert_eq!(wire.recipient_id, "bob-uuid");
    assert_eq!(wire.epochs.len(), 2);
    assert_eq!(wire.epochs[1].epoch, 1);
    let parsed = parse_key_bundle_from_wire(&wire).unwrap();
    assert_eq!(parsed.epochs, bundle.epochs);
    assert_eq!(parsed.signature, bundle.signature);
    let a_x = alice.identity().x25519_public();
    let a_ed = alice.identity().verifying_key();
    bob.receive_key_bundle(&a_x, &a_ed, &parsed).unwrap();
    assert_eq!(bob.current_epoch(), Some(1));
    let s = sender();
    let (ct, _) = alice.encrypt(&s, "welcome").unwrap();
    assert_eq!(bob.decrypt(&s, &ct).unwrap(), "welcome");
}

#[test]
fn current_epoch_bundle_only() {
    let mut alice = ChatCrypto::create_new(identity());
    alice.rotate_key();
    alice.rotate_key();
    let bob = identity();
    let bundle = alice.prepare_key_bundle(&bob.x25519_public(), false).unwrap();
    assert_eq!(bundle.epochs.len(), 1);
    assert_eq!(bundle.epochs[0].0, 2);
}

#[test]
fn failed_bundle_leaves_keys_alone() {
    let alice = ChatCrypto::create_new(identity());
    let mut bob = ChatCrypto::create_new(identity());
    let carol = identity();
    let bundle = alice.prepare_key_bundle(&bob.identity().x25519_public(), true).unwrap();
    let before = bob.keychain().all_epochs().len();
    // claimed to come from carol: the signature does not verify
    let r = bob.receive_key_bundle(&carol.x25519_public(), &carol.verifying_key(), &bundle);
    assert!(r.is_err());
    assert_eq!(bob.keychain().all_epochs().len(), before);
}

#[test]
fn wire_payload_rejects_bad_base64() {
    let alice = ChatCrypto::create_new(identity());
    let bundle = alice.prepare_key_bundle(&identity().x25519_public(), true).unwrap();
    let mut wire = bundle_to_wire_payload(&bundle, "r");
    wire.signature = "%%%".to_string();
    assert_eq!(parse_key_bundle_from_wire(&wire).err(), Some(WireError::SignatureBase64));
    let mut wire = bundle_to_wire_payload(&bundle, "r");
    wire.epochs[0].encrypted_key = "%%%".to_string();
    assert_eq!(parse_key_bundle_from_wire(&wire).err(), Some(WireError::EncryptedKeyBase64(0)));
}

#[test]
fn display_body_placeholders() {
    let c = ChatCrypto::create_new(identity());
    let s = sender();
    let (ct, _) = c.encrypt(&s, "hi there").unwrap();
    assert_eq!(body_for_sender(None, Some(s), &ct), "<awaiting keys>");
    assert_eq!(body_for_sender(Some(&c), None, &ct), "<invalid sender>");
    assert_eq!(body_for_sender(Some(&c), Some(s), &ct), "hi there");
    assert_eq!(body_for_sender(Some(&c), Some(s), "not base64!!"), "<decrypt failed>");
    assert_eq!(body_for_sender(Some(&c), Some(sender()), &ct), "<decrypt failed>");
}

#[test]
fn display_body_parses_the_sender_uuid() {
    let c = ChatCrypto::create_new(identity());
    let u = uuid::Uuid::new_v4();
    let (ct, _) = c.encrypt(u.as_bytes(), "from a uuid").unwrap();
    assert_eq!(message_body_for_display(Some(&c), &u.to_string(), &ct), "from a uuid");
    assert_eq!(message_body_for_display(Some(&c), &u.simple().to_string(), &ct), "from a uuid");
    assert_eq!(message_body_for_display(Some(&c), "not-a-uuid", &ct), "<invalid sender>");
    assert_eq!(message_body_for_display(None, "not-a-uuid", &ct), "<awaiting keys>");
}
