//! A token is `message.signature.certificate`, each part in URL-safe Base64
//! without padding, where the message is `timestamp|server` and the
//! signature is the RSA PKCS#1 v1.5 SHA-256 signature of the message under
//! the account's key.

use vstd::prelude::*;
use vstd::utf8::encode_utf8;
use base64::Engine;

use crate::text::{push_char, push_str};

verus! {

/// The URL-safe, unpadded Base64 text of some bytes.
pub uninterp spec fn base64url_text(bytes: Seq<u8>) -> Seq<char>;

/// URL-safe Base64 without padding
/// (`base64::engine::general_purpose::URL_SAFE_NO_PAD.encode`). Its alphabet
/// is `A`-`Z`, `a`-`z`, `0`-`9`, `-` and `_`, so the text never holds a dot.
#[verifier::external_body]
fn base64url_encode(bytes: &[u8]) -> (text: String)
    ensures
        text@ == base64url_text(bytes@),
        forall|i: int| 0 <= i < text@.len() ==> text@[i] != '.',
{
    base64::engine::general_purpose::URL_SAFE_NO_PAD.encode(bytes)
}

/// The message a token signs: the timestamp, `|`, the server address.
pub open spec fn token_message_text(timestamp: Seq<char>, server: Seq<char>) -> Seq<char> {
    timestamp + seq!['|'] + server
}

/// The message a token signs.
pub fn token_message(timestamp: &str, server: &str) -> (r: String)
    ensures
        r@ == token_message_text(timestamp@, server@),
{
    let mut s = String::new();
    push_str(&mut s, timestamp);
    push_char(&mut s, '|');
    push_str(&mut s, server);
    s
}

/// The token text of its three parts.
pub open spec fn token_text(message: Seq<u8>, signature: Seq<u8>, cert: Seq<u8>) -> Seq<char> {
    base64url_text(message) + seq!['.'] + base64url_text(signature) + seq!['.'] + base64url_text(cert)
}

/// Join the signed message, its signature and the certificate into a token.
/// The token holds exactly two dots, one between each pair of parts.
pub fn assemble_token(message: &[u8], signature: &[u8], cert: &[u8]) -> (r: String)
    ensures
        r@ == token_text(message@, signature@, cert@),
        ({
            let a = base64url_text(message@).len() as int;
            let b = base64url_text(signature@).len() as int;
            &&& r@[a] == '.'
            &&& r@[a + 1 + b] == '.'
            &&& forall|i: int| 0 <= i < r@.len() && i != a && i != a + 1 + b ==> r@[i] != '.'
        }),
{
    let m = base64url_encode(message);
    let s = base64url_encode(signature);
    let c = base64url_encode(cert);
    let mut out = String::new();
    push_str(&mut out, m.as_str());
    push_char(&mut out, '.');
    push_str(&mut out, s.as_str());
    push_char(&mut out, '.');
    push_str(&mut out, c.as_str());
    proof {
        let a = m@.len() as int;
        let b = s@.len() as int;
        assert(out@ =~= m@ + seq!['.'] + s@ + seq!['.'] + c@);
        assert forall|i: int| 0 <= i < out@.len() && i != a && i != a + 1 + b implies out@[i] != '.' by {
            if i < a {
                assert(out@[i] == m@[i]);
            } else if i < a + 1 + b {
                assert(out@[i] == s@[i - a - 1]);
            } else {
                assert(out@[i] == c@[i - a - 2 - b]);
            }
        }
    }
    out
}

/// The DER bytes a PEM text holds (`pem::parse`, then `Pem::contents`), or
/// `None` when the text is not PEM.
pub uninterp spec fn pem_contents(pem: Seq<u8>) -> Option<Seq<u8>>;

/// The RSA PKCS#1 v1.5 signature with SHA-256 of `msg` under the PKCS#8 key
/// `pkcs8` (deterministic: ring draws randomness only for blinding).
pub uninterp spec fn rsa_pkcs1_sha256_signature(pkcs8: Seq<u8>, msg: Seq<u8>) -> Seq<u8>;

/// `pem::parse` followed by `Pem::contents`: the DER bytes, exactly when the
/// text parses as PEM.
#[verifier::external_body]
fn pem_parse(pem: &[u8]) -> (r: Option<Vec<u8>>)
    ensures
        r is None <==> pem_contents(pem@) is None,
        r matches Some(der) ==> pem_contents(pem@) == Some(der@),
{
    pem::parse(pem).ok().map(|p| p.contents().to_vec())
}

/// Whether ring's `RsaKeyPair::from_pkcs8` accepts the bytes as an RSA key.
pub uninterp spec fn rsa_pkcs8_accepted(pkcs8: Seq<u8>) -> bool;

/// `ring::signature::RsaKeyPair::from_pkcs8` then `sign` with
/// `RSA_PKCS1_SHA256` into a buffer of the modulus length. It fails when ring
/// rejects the key; with an accepted key it can still fail when the random
/// source used for blinding fails, so success is not promised.
#[verifier::external_body]
fn rsa_sign(pkcs8: &[u8], msg: &[u8]) -> (r: Option<Vec<u8>>)
    ensures
        r matches Some(sig) ==> sig@ == rsa_pkcs1_sha256_signature(pkcs8@, msg@),
        r is Some ==> rsa_pkcs8_accepted(pkcs8@),
{
    let key_pair = ring::signature::RsaKeyPair::from_pkcs8(pkcs8).ok()?;
    let mut signature = vec![0u8; key_pair.public().modulus_len()];
    let rng = ring::rand::SystemRandom::new();
    key_pair.sign(&ring::signature::RSA_PKCS1_SHA256, &rng, msg, &mut signature).ok()?;
    Some(signature)
}

/// Why a token could not be built.
#[derive(Debug, Clone, Copy, PartialEq, Eq)]
pub enum TokenError {
    /// The private key file is not PEM.
    KeyPem,
    /// ring refused the key or the signing.
    Signing,
}

/// The token for `timestamp` and `server`: the message `timestamp|server`,
/// its RSA PKCS#1 v1.5 SHA-256 signature under the PEM private key, and the
/// certificate PEM, joined as `assemble_token` joins them.
pub fn build_token(key_pem: &[u8], cert_pem: &[u8], timestamp: &str, server: &str) -> (r: Result<String, TokenError>)
    ensures
        r == Err::<String, TokenError>(TokenError::KeyPem) <==> pem_contents(key_pem@) is None,
        r is Err ==> r == Err::<String, TokenError>(TokenError::KeyPem)
            || r == Err::<String, TokenError>(TokenError::Signing),
        pem_contents(key_pem@) matches Some(der) && !rsa_pkcs8_accepted(der)
            ==> r == Err::<String, TokenError>(TokenError::Signing),
        r matches Ok(t) ==> ({
            let msg = encode_utf8(token_message_text(timestamp@, server@));
            &&& pem_contents(key_pem@) is Some
            &&& t@ == token_text(msg, rsa_pkcs1_sha256_signature(pem_contents(key_pem@)->0, msg), cert_pem@)
        }),
{
    let message = token_message(timestamp, server);
    let der = match pem_parse(key_pem) {
        Some(d) => d,
        None => return Err(TokenError::KeyPem),
    };
    let signature = match rsa_sign(der.as_slice(), message.as_str().as_bytes()) {
        Some(sig) => sig,
        None => return Err(TokenError::Signing),
    };
    Ok(assemble_token(message.as_str().as_bytes(), signature.as_slice(), cert_pem))
}

} // verus!
