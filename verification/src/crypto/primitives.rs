//! The cryptographic primitives the library relies on, each a thin trusted
//! wrapper around an outside crate: randomness (rand), AES-256-GCM (aes-gcm),
//! HKDF-SHA256 (hkdf, sha2), Ed25519 (ed25519-dalek), X25519 (x25519-dalek)
//! and Base64 (base64). Their contracts are believed, not proved.

use vstd::prelude::*;
use aes_gcm::aead::{Aead, KeyInit, Payload};
use base64::Engine;
use ed25519_dalek::Signer;
use rand::RngCore;

verus! {

/// Largest plaintext (and associated data) AES-GCM accepts: 2^36 bytes.
pub const AES_GCM_MAX_LEN: u64 = 0x10_0000_0000;

/// The ciphertext (with its 16-byte tag appended) that AES-256-GCM produces
/// for the given key, nonce, plaintext and associated data.
pub uninterp spec fn aes256_gcm_seal(key: Seq<u8>, nonce: Seq<u8>, msg: Seq<u8>, aad: Seq<u8>) -> Seq<u8>;

/// What AES-256-GCM decryption yields for the given key, nonce, ciphertext and
/// associated data: the plaintext, or `None` when authentication fails.
pub uninterp spec fn aes256_gcm_open(key: Seq<u8>, nonce: Seq<u8>, ct: Seq<u8>, aad: Seq<u8>) -> Option<Seq<u8>>;

/// The 32 bytes HKDF-SHA256 expands from `ikm` under `salt` and `info`.
pub uninterp spec fn hkdf_sha256_32(salt: Seq<u8>, ikm: Seq<u8>, info: Seq<u8>) -> Seq<u8>;

/// The Ed25519 public key of a 32-byte secret seed.
pub uninterp spec fn ed25519_public(seed: Seq<u8>) -> Seq<u8>;

/// The (deterministic) Ed25519 signature of `msg` under a secret seed.
pub uninterp spec fn ed25519_signature(seed: Seq<u8>, msg: Seq<u8>) -> Seq<u8>;

/// Whether strict Ed25519 verification accepts `sig` over `msg` for `public`.
pub uninterp spec fn ed25519_accepts(public: Seq<u8>, msg: Seq<u8>, sig: Seq<u8>) -> bool;

/// The X25519 public key of a 32-byte secret.
pub uninterp spec fn x25519_public(secret: Seq<u8>) -> Seq<u8>;

/// The X25519 shared secret of a secret and a peer's public key.
pub uninterp spec fn x25519_shared(secret: Seq<u8>, peer_public: Seq<u8>) -> Seq<u8>;

/// The standard (padded) Base64 text of some bytes.
pub uninterp spec fn base64_text(bytes: Seq<u8>) -> Seq<char>;

/// What standard Base64 decoding yields for a text: the bytes, or `None` when
/// the text is not valid Base64.
pub uninterp spec fn base64_bytes(text: Seq<char>) -> Option<Seq<u8>>;

/// The bytes an optional buffer holds, if any.
pub open spec fn bytes_of(r: Option<Vec<u8>>) -> Option<Seq<u8>> {
    match r {
        Some(v) => Some(v@),
        None => None,
    }
}

/// Fill a fresh 32-byte array from the operating system's random source
/// (`rand::rngs::OsRng::fill_bytes`). Nothing is promised of the bytes.
#[verifier::external_body]
pub(crate) fn random_key() -> (key: [u8; 32]) {
    let mut key = [0u8; 32];
    rand::rngs::OsRng.fill_bytes(&mut key);
    key
}

/// Fill a fresh 12-byte nonce from the operating system's random source
/// (`rand::rngs::OsRng::fill_bytes`). Nothing is promised of the bytes.
#[verifier::external_body]
pub(crate) fn random_nonce() -> (nonce: [u8; 12]) {
    let mut nonce = [0u8; 12];
    rand::rngs::OsRng.fill_bytes(&mut nonce);
    nonce
}

/// AES-256-GCM encryption (`aes_gcm::Aes256Gcm::encrypt` with a payload and
/// associated data). The crate refuses only plaintexts or associated data
/// longer than 2^36 bytes; otherwise the result is the named ciphertext, which
/// is the plaintext length plus the 16-byte tag.
#[verifier::external_body]
pub(crate) fn aes256_gcm_encrypt(key: &[u8; 32], nonce: &[u8; 12], msg: &[u8], aad: &[u8]) -> (r: Option<Vec<u8>>)
    ensures
        (msg@.len() <= AES_GCM_MAX_LEN && aad@.len() <= AES_GCM_MAX_LEN) ==> r is Some,
        r matches Some(ct) ==> ct@ == aes256_gcm_seal(key@, nonce@, msg@, aad@)
            && ct@.len() == msg@.len() + 16,
{
    let cipher = aes_gcm::Aes256Gcm::new(aes_gcm::Key::<aes_gcm::Aes256Gcm>::from_slice(key));
    cipher.encrypt(aes_gcm::Nonce::from_slice(nonce), Payload { msg, aad }).ok()
}

/// AES-256-GCM decryption (`aes_gcm::Aes256Gcm::decrypt`). The result is the
/// named one; decrypting, under the same key, nonce and associated data, what
/// encryption produced gives the plaintext back (the crate's documented round
/// trip).
#[verifier::external_body]
pub(crate) fn aes256_gcm_decrypt(key: &[u8; 32], nonce: &[u8; 12], ct: &[u8], aad: &[u8]) -> (r: Option<Vec<u8>>)
    ensures
        r is Some <==> aes256_gcm_open(key@, nonce@, ct@, aad@) is Some,
        r matches Some(p) ==> aes256_gcm_open(key@, nonce@, ct@, aad@) == Some(p@),
        forall|m: Seq<u8>|
            m.len() <= AES_GCM_MAX_LEN && aad@.len() <= AES_GCM_MAX_LEN
                && ct@ == #[trigger] aes256_gcm_seal(key@, nonce@, m, aad@)
                ==> bytes_of(r) == Some(m),
{
    let cipher = aes_gcm::Aes256Gcm::new(aes_gcm::Key::<aes_gcm::Aes256Gcm>::from_slice(key));
    cipher.decrypt(aes_gcm::Nonce::from_slice(nonce), Payload { msg: ct, aad }).ok()
}

/// HKDF-SHA256 extract-and-expand to 32 bytes (`hkdf::Hkdf::<Sha256>::new`
/// then `expand`, which cannot fail for 32 bytes).
#[verifier::external_body]
pub(crate) fn hkdf_sha256_expand32(salt: &[u8], ikm: &[u8], info: &[u8]) -> (okm: [u8; 32])
    ensures
        okm@ == hkdf_sha256_32(salt@, ikm@, info@),
{
    let hk = hkdf::Hkdf::<sha2::Sha256>::new(Some(salt), ikm);
    let mut okm = [0u8; 32];
    let _ = hk.expand(info, &mut okm);
    okm
}

/// The Ed25519 public key of a seed
/// (`ed25519_dalek::SigningKey::from_bytes(..).verifying_key().to_bytes()`).
#[verifier::external_body]
pub(crate) fn ed25519_public_key(seed: &[u8; 32]) -> (public: [u8; 32])
    ensures
        public@ == ed25519_public(seed@),
{
    ed25519_dalek::SigningKey::from_bytes(seed).verifying_key().to_bytes()
}

/// Ed25519 signing (`ed25519_dalek::SigningKey::sign`), which is deterministic.
#[verifier::external_body]
pub(crate) fn ed25519_sign(seed: &[u8; 32], msg: &[u8]) -> (sig: [u8; 64])
    ensures
        sig@ == ed25519_signature(seed@, msg@),
{
    ed25519_dalek::SigningKey::from_bytes(seed).sign(msg).to_bytes()
}

/// Strict Ed25519 verification (`ed25519_dalek::VerifyingKey::from_bytes`
/// then `verify_strict`); a public key that does not decode is rejected. The
/// verdict is named and nothing more is claimed: in particular not that every
/// honest signature is accepted, since `verify_strict` also rejects
/// small-order keys and signature points.
#[verifier::external_body]
pub(crate) fn ed25519_verify(public: &[u8; 32], msg: &[u8], sig: &[u8; 64]) -> (ok: bool)
    ensures
        ok == ed25519_accepts(public@, msg@, sig@),
{
    match ed25519_dalek::VerifyingKey::from_bytes(public) {
        Ok(vk) => vk.verify_strict(msg, &ed25519_dalek::Signature::from_bytes(sig)).is_ok(),
        Err(_) => false,
    }
}

/// The X25519 public key of a secret
/// (`x25519_dalek::PublicKey::from(&StaticSecret::from(..))`).
#[verifier::external_body]
pub(crate) fn x25519_public_key(secret: &[u8; 32]) -> (public: [u8; 32])
    ensures
        public@ == x25519_public(secret@),
{
    x25519_dalek::PublicKey::from(&x25519_dalek::StaticSecret::from(*secret)).to_bytes()
}

/// X25519 Diffie-Hellman (`x25519_dalek::StaticSecret::diffie_hellman`). Both
/// parties reach the same shared secret (the crate's documented agreement).
#[verifier::external_body]
pub(crate) fn x25519_diffie_hellman(secret: &[u8; 32], peer_public: &[u8; 32]) -> (shared: [u8; 32])
    ensures
        shared@ == x25519_shared(secret@, peer_public@),
        forall|other: Seq<u8>|
            peer_public@ == #[trigger] x25519_public(other)
                ==> shared@ == x25519_shared(other, x25519_public(secret@)),
{
    let secret = x25519_dalek::StaticSecret::from(*secret);
    secret.diffie_hellman(&x25519_dalek::PublicKey::from(*peer_public)).to_bytes()
}

/// Standard Base64 encoding with padding
/// (`base64::engine::general_purpose::STANDARD.encode`).
#[verifier::external_body]
pub(crate) fn base64_encode(bytes: &[u8]) -> (text: String)
    ensures
        text@ == base64_text(bytes@),
{
    base64::engine::general_purpose::STANDARD.encode(bytes)
}

/// Standard Base64 decoding (`base64::engine::general_purpose::STANDARD.decode`).
/// Decoding what encoding produced gives the bytes back.
#[verifier::external_body]
pub(crate) fn base64_decode(text: &str) -> (r: Option<Vec<u8>>)
    ensures
        r is Some <==> base64_bytes(text@) is Some,
        r matches Some(b) ==> base64_bytes(text@) == Some(b@),
        forall|b: Seq<u8>| text@ == #[trigger] base64_text(b) ==> bytes_of(r) == Some(b),
{
    base64::engine::general_purpose::STANDARD.decode(text).ok()
}

} // verus!
