//! A peer's public keys as the server sends them (Base64 text) or as the
//! local cache keeps them (the Ed25519 key, then the X25519 key), and the
//! check whether the server holds our own keys.

use vstd::prelude::*;

use super::primitives::{base64_bytes, base64_decode};

verus! {

/// Whether 32 bytes are the compressed form of a point on the Ed25519 curve.
pub uninterp spec fn ed25519_point_valid(public: Seq<u8>) -> bool;

/// `ed25519_dalek::VerifyingKey::from_bytes` succeeds: the bytes decompress
/// to a curve point. Which byte strings do is left to the name.
#[verifier::external_body]
fn ed25519_key_valid(public: &[u8; 32]) -> (ok: bool)
    ensures
        ok == ed25519_point_valid(public@),
{
    ed25519_dalek::VerifyingKey::from_bytes(public).is_ok()
}

/// Why a peer's keys could not be read.
#[derive(Debug, Clone, Copy, PartialEq, Eq)]
pub enum PeerKeyError {
    /// A key is not valid Base64.
    Base64,
    /// The Ed25519 key is not 32 bytes.
    Ed25519Length,
    /// The X25519 key is not 32 bytes.
    X25519Length,
    /// The Ed25519 key is not a curve point.
    InvalidEd25519,
}

/// What reading a peer's two Base64 keys gives: the Ed25519 key is checked
/// first (decoding, length, then, once the X25519 key has decoded to 32
/// bytes, that it is a curve point).
pub open spec fn peer_keys_outcome(ed_b64: Seq<char>, x_b64: Seq<char>) -> Result<(Seq<u8>, Seq<u8>), PeerKeyError> {
    match base64_bytes(ed_b64) {
        None => Err(PeerKeyError::Base64),
        Some(e) => if e.len() != 32 {
            Err(PeerKeyError::Ed25519Length)
        } else {
            match base64_bytes(x_b64) {
                None => Err(PeerKeyError::Base64),
                Some(x) => if x.len() != 32 {
                    Err(PeerKeyError::X25519Length)
                } else if !ed25519_point_valid(e) {
                    Err(PeerKeyError::InvalidEd25519)
                } else {
                    Ok((e, x))
                },
            }
        },
    }
}

/// The 32 bytes of `v` from `lo` on.
fn take32(v: &[u8], lo: usize) -> (r: [u8; 32])
    requires
        lo + 32 <= v@.len(),
    ensures
        r@ == v@.subrange(lo as int, lo + 32),
{
    let mut r = [0u8; 32];
    let mut i: usize = 0;
    while i < 32
        invariant
            i <= 32,
            lo + 32 <= v.len(),
            r@.len() == 32,
            forall|j: int| 0 <= j < i ==> r@[j] == v@[lo + j],
        decreases 32 - i,
    {
        r[i] = v[lo + i];
        i += 1;
    }
    assert(r@ =~= v@.subrange(lo as int, lo + 32));
    r
}

/// A peer's Ed25519 and X25519 public keys from the server's Base64 texts.
pub fn peer_keys_from_text(ed_b64: &str, x_b64: &str) -> (r: Result<([u8; 32], [u8; 32]), PeerKeyError>)
    ensures
        match peer_keys_outcome(ed_b64@, x_b64@) {
            Ok((e, x)) => r matches Ok((re, rx)) && re@ == e && rx@ == x,
            Err(err) => r == Err::<([u8; 32], [u8; 32]), PeerKeyError>(err),
        },
{
    let e = match base64_decode(ed_b64) {
        Some(e) => e,
        None => return Err(PeerKeyError::Base64),
    };
    if e.len() != 32 {
        return Err(PeerKeyError::Ed25519Length);
    }
    let x = match base64_decode(x_b64) {
        Some(x) => x,
        None => return Err(PeerKeyError::Base64),
    };
    if x.len() != 32 {
        return Err(PeerKeyError::X25519Length);
    }
    let ed = take32(e.as_slice(), 0);
    let xk = take32(x.as_slice(), 0);
    assert(ed@ =~= e@);
    assert(xk@ =~= x@);
    if !ed25519_key_valid(&ed) {
        return Err(PeerKeyError::InvalidEd25519);
    }
    Ok((ed, xk))
}

/// A peer's keys from the cache: 64 bytes, the Ed25519 key then the X25519
/// key, the Ed25519 key a curve point; `None` otherwise.
pub fn peer_keys_from_cache(bytes: &[u8]) -> (r: Option<([u8; 32], [u8; 32])>)
    ensures
        r is Some <==> bytes@.len() == 64 && ed25519_point_valid(bytes@.subrange(0, 32)),
        r matches Some((e, x)) ==> e@ == bytes@.subrange(0, 32) && x@ == bytes@.subrange(32, 64),
{
    if bytes.len() != 64 {
        return None;
    }
    let ed = take32(bytes, 0);
    let x = take32(bytes, 32);
    if !ed25519_key_valid(&ed) {
        return None;
    }
    Some((ed, x))
}

/// The cache form of a peer's keys: the Ed25519 key, then the X25519 key.
pub fn peer_keys_to_cache(ed: &[u8; 32], x: &[u8; 32]) -> (r: Vec<u8>)
    ensures
        r@ == ed@ + x@,
{
    let mut r: Vec<u8> = Vec::new();
    r.extend_from_slice(ed);
    r.extend_from_slice(x);
    assert(r@ =~= ed@ + x@);
    r
}

/// Whether the server's keys (its Base64 texts, when it has them) differ
/// from our own, so that ours must be uploaded.
pub fn key_upload_needed(
    server_ed_b64: Option<&str>,
    server_x_b64: Option<&str>,
    local_ed: &[u8; 32],
    local_x: &[u8; 32],
) -> (r: bool)
    ensures
        r == !({
            &&& server_ed_b64 matches Some(e) && base64_bytes(e@) == Some(local_ed@)
            &&& server_x_b64 matches Some(x) && base64_bytes(x@) == Some(local_x@)
        }),
{
    let ed_same = match server_ed_b64 {
        Some(t) => match base64_decode(t) {
            Some(b) => same_bytes(b.as_slice(), local_ed),
            None => false,
        },
        None => false,
    };
    let x_same = match server_x_b64 {
        Some(t) => match base64_decode(t) {
            Some(b) => same_bytes(b.as_slice(), local_x),
            None => false,
        },
        None => false,
    };
    !(ed_same && x_same)
}

/// Whether two byte slices are equal.
fn same_bytes(a: &[u8], b: &[u8]) -> (r: bool)
    ensures
        r == (a@ == b@),
{
    if a.len() != b.len() {
        return false;
    }
    let mut i: usize = 0;
    while i < a.len()
        invariant
            a@.len() == b@.len(),
            i <= a@.len(),
            forall|j: int| 0 <= j < i ==> a@[j] == b@[j],
        decreases a@.len() - i,
    {
        if a[i] != b[i] {
            return false;
        }
        i += 1;
    }
    assert(a@ =~= b@);
    true
}

} // verus!
