use base64::Engine;
use sqwok::crypto::identity::E2eIdentity;
use sqwok::crypto::peer::{
    key_upload_needed, peer_keys_from_cache, peer_keys_from_text, peer_keys_to_cache, PeerKeyError,
};

fn b64(bytes: &[u8]) -> String {
    base64::engine::general_purpose::STANDARD.encode(bytes)
}

fn keys() -> ([u8; 32], [u8; 32]) {
    let id = E2eIdentity::from_key_bytes(&[9u8; 32], &[4u8; 32]).unwrap();
    (id.verifying_key(), id.x25519_public())
}

/// Not the compressed form of any curve point (y = 2).
fn not_a_point() -> [u8; 32] {
    let mut k = [0u8; 32];
    k[0] = 2;
    k
}

#[test]
fn peer_keys_from_server_text() {
    let (ed, x) = keys();
    assert_eq!(peer_keys_from_text(&b64(&ed), &b64(&x)), Ok((ed, x)));
    assert_eq!(peer_keys_from_text("not base64!", &b64(&x)), Err(PeerKeyError::Base64));
    assert_eq!(peer_keys_from_text(&b64(&ed), "@@"), Err(PeerKeyError::Base64));
    assert_eq!(peer_keys_from_text(&b64(&ed[..31]), &b64(&x)), Err(PeerKeyError::Ed25519Length));
    assert_eq!(peer_keys_from_text(&b64(&ed), &b64(&[1u8; 33])), Err(PeerKeyError::X25519Length));
    assert_eq!(peer_keys_from_text(&b64(&not_a_point()), &b64(&x)), Err(PeerKeyError::InvalidEd25519));
}

#[test]
fn peer_keys_cache_round_trip() {
    let (ed, x) = keys();
    let cached = peer_keys_to_cache(&ed, &x);
    assert_eq!(cached.len(), 64);
    assert_eq!(peer_keys_from_cache(&cached), Some((ed, x)));
    assert_eq!(peer_keys_from_cache(&ed), None);
    let mut bad = not_a_point().to_vec();
    bad.extend_from_slice(&x);
    assert_eq!(peer_keys_from_cache(&bad), None);
}

#[test]
fn upload_needed_unless_server_holds_our_keys() {
    let (ed, x) = keys();
    assert!(!key_upload_needed(Some(&b64(&ed)), Some(&b64(&x)), &ed, &x));
    assert!(key_upload_needed(None, Some(&b64(&x)), &ed, &x));
    assert!(key_upload_needed(Some(&b64(&ed)), None, &ed, &x));
    assert!(key_upload_needed(Some(&b64(&x)), Some(&b64(&x)), &ed, &x));
    assert!(key_upload_needed(Some("???"), Some(&b64(&x)), &ed, &x));
}

#[test]
fn generated_identities_differ_and_store_back() {
    let a = E2eIdentity::generate();
    let b = E2eIdentity::generate();
    assert_ne!(a.verifying_key(), b.verifying_key());
    let (seed, secret) = a.to_key_bytes();
    let back = E2eIdentity::from_key_bytes(&seed, &secret).unwrap();
    assert_eq!(back.verifying_key(), a.verifying_key());
    assert_eq!(back.x25519_public(), a.x25519_public());
}
