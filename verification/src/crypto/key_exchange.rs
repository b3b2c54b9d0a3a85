//! Distribution of epoch keys to one recipient: each key is wrapped with
//! AES-256-GCM under a key derived (HKDF-SHA256) from an X25519 shared
//! secret, and the whole bundle is signed with the sender's Ed25519 key.
//!
//! Wire format per epoch: `[nonce: 12 bytes][ciphertext + tag: 48 bytes]`.

use vstd::prelude::*;
use vstd::bytes::{spec_u32_to_le_bytes, u32_to_le_bytes};

use crate::bytes::{append_bytes, to_vec};
use super::group_key::EpochKey;
use super::identity::E2eIdentity;
use super::primitives::{
    aes256_gcm_decrypt, aes256_gcm_encrypt, aes256_gcm_open, aes256_gcm_seal, ed25519_accepts,
    ed25519_public, ed25519_signature, ed25519_verify, hkdf_sha256_32, hkdf_sha256_expand32,
    random_nonce, x25519_public, x25519_shared, AES_GCM_MAX_LEN,
};

verus! {

/// An encrypted key bundle ready to send over the wire.
pub struct EncryptedKeyBundle {
    /// One entry per epoch: (epoch, nonce followed by the wrapped key).
    pub epochs: Vec<(u32, Vec<u8>)>,
    /// Ed25519 signature over the canonical bundle content.
    pub signature: Vec<u8>,
}

/// Why a key bundle could not be produced or opened.
#[derive(Debug, Clone, Copy, PartialEq, Eq)]
pub enum KeyExchangeError {
    /// Wrapping a key failed.
    EncryptFailed,
    /// The signature is not 64 bytes long.
    InvalidSignatureLength,
    /// The signature does not verify under the sender's key.
    BadSignature,
    /// The wrapped key of this epoch is shorter than its nonce.
    BlobTooShort(u32),
    /// The wrapped key of this epoch failed authentication.
    DecryptFailed(u32),
    /// The unwrapped key of this epoch is not 32 bytes (epoch, length).
    WrongKeyLength(u32, usize),
}

/// The HKDF info string of the key-wrapping key: `sqwok-key-wrap-v1`.
pub open spec fn key_wrap_info() -> Seq<u8> {
    seq![0x73u8, 0x71, 0x77, 0x6f, 0x6b, 0x2d, 0x6b, 0x65, 0x79, 0x2d, 0x77, 0x72, 0x61, 0x70, 0x2d, 0x76, 0x31]
}

/// `a` sorts before `b` byte-wise (for sequences of equal length).
pub open spec fn lex_lt(a: Seq<u8>, b: Seq<u8>) -> bool {
    exists|k: int| 0 <= k < a.len() && a[k] < b[k] && forall|j: int| 0 <= j < k ==> a[j] == b[j]
}

/// The HKDF salt of a pair of X25519 public keys: the two keys concatenated,
/// the byte-wise smaller first, so both parties derive the same salt.
pub open spec fn wrap_salt(a: Seq<u8>, b: Seq<u8>) -> Seq<u8> {
    if lex_lt(a, b) { a + b } else { b + a }
}

/// The key-wrapping key two parties share.
pub open spec fn wrapping_key(shared: Seq<u8>, our_public: Seq<u8>, their_public: Seq<u8>, info: Seq<u8>) -> Seq<u8> {
    hkdf_sha256_32(wrap_salt(our_public, their_public), shared, info)
}

/// The bundle entries as plain bytes.
pub open spec fn entries_view(e: Seq<(u32, Vec<u8>)>) -> Seq<(u32, Seq<u8>)> {
    e.map_values(|p: (u32, Vec<u8>)| (p.0, p.1@))
}

/// Epochs and key bytes of a list of epoch keys.
pub open spec fn key_pairs(s: Seq<EpochKey>) -> Seq<(u32, Seq<u8>)> {
    s.map_values(|k: EpochKey| (k.epoch, k.key@))
}

/// The signed content: for each entry its epoch (little endian) then its blob.
pub open spec fn sign_payload(entries: Seq<(u32, Seq<u8>)>) -> Seq<u8>
    decreases entries.len(),
{
    if entries.len() == 0 {
        Seq::empty()
    } else {
        sign_payload(entries.drop_last()) + spec_u32_to_le_bytes(entries.last().0) + entries.last().1
    }
}

/// `entry` is the wrapping of epoch key `ek` under `wk` with the nonce it
/// carries.
pub open spec fn sealed_entry(wk: Seq<u8>, ek: EpochKey, entry: (u32, Seq<u8>)) -> bool {
    &&& entry.0 == ek.epoch
    &&& entry.1.len() == 60
    &&& entry.1 == entry.1.subrange(0, 12) + aes256_gcm_seal(
        wk, entry.1.subrange(0, 12), ek.key@, spec_u32_to_le_bytes(ek.epoch))
}

/// The bundle (entries, signature) wraps `keys` from the sender holding
/// `sender_seed` / `sender_secret` for the holder of `recipient_public`.
pub open spec fn is_sealed_bundle(
    entries: Seq<(u32, Seq<u8>)>,
    sig: Seq<u8>,
    keys: Seq<EpochKey>,
    sender_seed: Seq<u8>,
    sender_secret: Seq<u8>,
    recipient_public: Seq<u8>,
) -> bool {
    let wk = wrapping_key(x25519_shared(sender_secret, recipient_public),
        x25519_public(sender_secret), recipient_public, key_wrap_info());
    &&& entries.len() == keys.len()
    &&& forall|i: int| 0 <= i < keys.len() ==> sealed_entry(wk, #[trigger] keys[i], entries[i])
    &&& sig.len() == 64
    &&& sig == ed25519_signature(sender_seed, sign_payload(entries))
}

/// `is_sealed_bundle` for the holder of `my_secret`, from the sender whose
/// public keys are `sender_x25519` / `sender_ed25519`, with the sender's
/// signature over the signed payload one that strict verification accepts.
pub open spec fn sealed_for(
    entries: Seq<(u32, Seq<u8>)>,
    sig: Seq<u8>,
    keys: Seq<EpochKey>,
    sender_seed: Seq<u8>,
    sender_secret: Seq<u8>,
    my_secret: Seq<u8>,
    sender_x25519: Seq<u8>,
    sender_ed25519: Seq<u8>,
) -> bool {
    &&& is_sealed_bundle(entries, sig, keys, sender_seed, sender_secret, x25519_public(my_secret))
    &&& sender_x25519 == x25519_public(sender_secret)
    &&& sender_ed25519 == ed25519_public(sender_seed)
    &&& ed25519_accepts(sender_ed25519, sign_payload(entries), sig)
}

/// What unwrapping one entry under `wk` yields: its epoch and key bytes.
pub open spec fn unwrap_entry(wk: Seq<u8>, entry: (u32, Seq<u8>)) -> Result<(u32, Seq<u8>), KeyExchangeError> {
    if entry.1.len() < 12 {
        Err(KeyExchangeError::BlobTooShort(entry.0))
    } else {
        match aes256_gcm_open(wk, entry.1.subrange(0, 12), entry.1.subrange(12, entry.1.len() as int),
            spec_u32_to_le_bytes(entry.0)) {
            None => Err(KeyExchangeError::DecryptFailed(entry.0)),
            Some(p) => if p.len() != 32 {
                Err(KeyExchangeError::WrongKeyLength(entry.0, p.len() as usize))
            } else {
                Ok((entry.0, p))
            },
        }
    }
}

/// What unwrapping all entries in order yields: every key, or the first error.
pub open spec fn unwrap_entries(wk: Seq<u8>, entries: Seq<(u32, Seq<u8>)>) -> Result<Seq<(u32, Seq<u8>)>, KeyExchangeError>
    decreases entries.len(),
{
    if entries.len() == 0 {
        Ok(Seq::empty())
    } else {
        match unwrap_entries(wk, entries.drop_last()) {
            Err(e) => Err(e),
            Ok(ks) => match unwrap_entry(wk, entries.last()) {
                Err(e) => Err(e),
                Ok(k) => Ok(ks.push(k)),
            },
        }
    }
}

/// What opening a bundle yields for the recipient: signature checks first,
/// then every entry is unwrapped.
pub open spec fn open_bundle_outcome(
    entries: Seq<(u32, Seq<u8>)>,
    sig: Seq<u8>,
    sender_ed25519: Seq<u8>,
    wk: Seq<u8>,
) -> Result<Seq<(u32, Seq<u8>)>, KeyExchangeError> {
    if sig.len() != 64 {
        Err(KeyExchangeError::InvalidSignatureLength)
    } else if !ed25519_accepts(sender_ed25519, sign_payload(entries), sig) {
        Err(KeyExchangeError::BadSignature)
    } else {
        unwrap_entries(wk, entries)
    }
}

proof fn lemma_lex_first_difference(a: Seq<u8>, b: Seq<u8>)
    requires
        a.len() == b.len(),
        a != b,
    ensures
        lex_lt(a, b) != lex_lt(b, a),
{
    assert(exists|k: int| 0 <= k < a.len() && a[k] != b[k]) by {
        if forall|k: int| 0 <= k < a.len() ==> a[k] == b[k] {
            assert(a =~= b);
        }
    }
    let k0 = choose|k: int| 0 <= k < a.len() && a[k] != b[k];
    let k = first_difference(a, b, k0);
    if a[k] < b[k] {
        assert(lex_lt(a, b));
        if lex_lt(b, a) {
            let m = choose|m: int| 0 <= m < b.len() && b[m] < a[m] && forall|j: int| 0 <= j < m ==> b[j] == a[j];
            if m < k {
            } else if m > k {
                assert(b[k] == a[k]);
            }
        }
    } else {
        assert(lex_lt(b, a));
        if lex_lt(a, b) {
            let m = choose|m: int| 0 <= m < a.len() && a[m] < b[m] && forall|j: int| 0 <= j < m ==> a[j] == b[j];
            if m < k {
            } else if m > k {
                assert(b[k] == a[k]);
            }
        }
    }
}

/// The first index below or at `k` where the two sequences differ.
proof fn first_difference(a: Seq<u8>, b: Seq<u8>, k: int) -> (f: int)
    requires
        0 <= k < a.len() == b.len(),
        a[k] != b[k],
    ensures
        0 <= f <= k,
        a[f] != b[f],
        forall|j: int| 0 <= j < f ==> a[j] == b[j],
    decreases k,
{
    if exists|j: int| 0 <= j < k && a[j] != b[j] {
        let j = choose|j: int| 0 <= j < k && a[j] != b[j];
        first_difference(a, b, j)
    } else {
        k
    }
}

/// Law: both parties derive the same salt, whichever of them computes it.
pub proof fn law_wrap_salt_symmetric(a: Seq<u8>, b: Seq<u8>)
    requires
        a.len() == b.len(),
    ensures
        wrap_salt(a, b) == wrap_salt(b, a),
{
    if a != b {
        lemma_lex_first_difference(a, b);
    }
}

/// Law: the key-wrapping key is HKDF-SHA256 of the shared secret salted with
/// the two public keys, the byte-wise smaller key first: when `a` is smaller
/// at the first byte where the keys differ, both `a`'s side and `b`'s side
/// derive HKDF with salt `a ++ b`; equal keys give salt `a ++ a`.
pub proof fn law_wrapping_key_salt_order(shared: Seq<u8>, a: Seq<u8>, b: Seq<u8>, info: Seq<u8>)
    requires
        a.len() == b.len(),
    ensures
        (exists|k: int| 0 <= k < a.len() && a[k] < b[k] && forall|j: int| 0 <= j < k ==> a[j] == b[j]) ==> {
            &&& wrapping_key(shared, a, b, info) == hkdf_sha256_32(a + b, shared, info)
            &&& wrapping_key(shared, b, a, info) == hkdf_sha256_32(a + b, shared, info)
        },
        a == b ==> wrapping_key(shared, a, b, info) == hkdf_sha256_32(a + a, shared, info),
{
    if exists|k: int| 0 <= k < a.len() && a[k] < b[k] && forall|j: int| 0 <= j < k ==> a[j] == b[j] {
        let k = choose|k: int| 0 <= k < a.len() && a[k] < b[k] && forall|j: int| 0 <= j < k ==> a[j] == b[j];
        assert(a[k] != b[k]);
        assert(a != b);
        assert(lex_lt(a, b));
        lemma_lex_first_difference(a, b);
    }
}

/// The HKDF info string as bytes.
fn key_wrap_info_bytes() -> (info: Vec<u8>)
    ensures
        info@ == key_wrap_info(),
{
    let info = vec![0x73u8, 0x71, 0x77, 0x6f, 0x6b, 0x2d, 0x6b, 0x65, 0x79, 0x2d, 0x77, 0x72, 0x61, 0x70, 0x2d, 0x76, 0x31];
    assert(info@ =~= key_wrap_info());
    info
}

/// Byte-wise `a < b` on two 32-byte keys.
fn key_lt(a: &[u8; 32], b: &[u8; 32]) -> (r: bool)
    ensures
        r == lex_lt(a@, b@),
{
    let mut i: usize = 0;
    while i < 32
        invariant
            i <= 32,
            a@.len() == 32,
            b@.len() == 32,
            forall|j: int| 0 <= j < i ==> a@[j] == b@[j],
        decreases 32 - i,
    {
        if a[i] < b[i] {
            assert(lex_lt(a@, b@));
            return true;
        }
        if a[i] > b[i] {
            proof {
                if lex_lt(a@, b@) {
                    let m = choose|m: int| 0 <= m < a@.len() && a@[m] < b@[m] && forall|j: int| 0 <= j < m ==> a@[j] == b@[j];
                    if m > i {
                        assert(a@[i as int] == b@[i as int]);
                    }
                }
            }
            return false;
        }
        i += 1;
    }
    false
}

/// Derive a wrapping key from a DH shared secret with HKDF-SHA256, salted with
/// the sorted concatenation of both parties' X25519 public keys so it is the
/// same whoever initiates.
pub fn derive_wrapping_key(shared_secret: &[u8; 32], our_public: &[u8; 32], their_public: &[u8; 32], info: &[u8]) -> (k: [u8; 32])
    ensures
        k@ == wrapping_key(shared_secret@, our_public@, their_public@, info@),
{
    let mut salt: Vec<u8> = Vec::new();
    if key_lt(our_public, their_public) {
        append_bytes(&mut salt, our_public);
        append_bytes(&mut salt, their_public);
    } else {
        append_bytes(&mut salt, their_public);
        append_bytes(&mut salt, our_public);
    }
    hkdf_sha256_expand32(salt.as_slice(), shared_secret, info)
}

/// The signed content of a bundle's entries.
fn build_sign_payload(epochs: &Vec<(u32, Vec<u8>)>) -> (payload: Vec<u8>)
    ensures
        payload@ == sign_payload(entries_view(epochs@)),
{
    let mut payload: Vec<u8> = Vec::new();
    let n = epochs.len();
    let mut i: usize = 0;
    while i < n
        invariant
            n == epochs@.len(),
            i <= n,
            payload@ == sign_payload(entries_view(epochs@.subrange(0, i as int))),
        decreases n - i,
    {
        let eb = u32_to_le_bytes(epochs[i].0);
        append_bytes(&mut payload, eb.as_slice());
        append_bytes(&mut payload, epochs[i].1.as_slice());
        proof {
            let pre = entries_view(epochs@.subrange(0, i as int));
            let nxt = entries_view(epochs@.subrange(0, i + 1));
            assert(nxt.drop_last() =~= pre);
            assert(nxt.last() == (epochs@[i as int].0, epochs@[i as int].1@));
        }
        i += 1;
    }
    assert(epochs@.subrange(0, n as int) =~= epochs@);
    payload
}

/// Encrypt epoch keys for one recipient, each under a fresh nonce with its
/// epoch number as associated data, and sign the bundle.
pub fn encrypt_key_bundle(identity: &E2eIdentity, recipient_x25519: &[u8; 32], epoch_keys: &[EpochKey]) -> (r: Result<EncryptedKeyBundle, KeyExchangeError>)
    ensures
        r is Ok,
        r matches Ok(b) ==> is_sealed_bundle(entries_view(b.epochs@), b.signature@, epoch_keys@,
            identity.signing_seed(), identity.x25519_secret(), recipient_x25519@),
{
    let shared_secret = identity.dh(recipient_x25519);
    let our_public = identity.x25519_public();
    let info = key_wrap_info_bytes();
    let wrapping_key = derive_wrapping_key(&shared_secret, &our_public, recipient_x25519, info.as_slice());
    let ghost wk = wrapping_key@;
    let mut epochs: Vec<(u32, Vec<u8>)> = Vec::new();
    let n = epoch_keys.len();
    let mut i: usize = 0;
    while i < n
        invariant
            n == epoch_keys@.len(),
            i <= n,
            epochs@.len() == i,
            wrapping_key@ == wk,
            forall|j: int| 0 <= j < i ==> sealed_entry(wk, #[trigger] epoch_keys@[j], entries_view(epochs@)[j]),
        decreases n - i,
    {
        let ek = epoch_keys[i];
        let nonce = random_nonce();
        let aad = u32_to_le_bytes(ek.epoch);
        proof {
            vstd::bytes::lemma_auto_spec_u32_to_from_le_bytes();
        }
        let ciphertext = match aes256_gcm_encrypt(&wrapping_key, &nonce, &ek.key, aad.as_slice()) {
            Some(c) => c,
            None => return Err(KeyExchangeError::EncryptFailed),
        };
        let mut blob: Vec<u8> = to_vec(&nonce);
        append_bytes(&mut blob, ciphertext.as_slice());
        proof {
            assert(blob@.subrange(0, 12) =~= nonce@);
            assert(sealed_entry(wk, ek, (ek.epoch, blob@)));
        }
        let ghost old_epochs = epochs@;
        epochs.push((ek.epoch, blob));
        proof {
            assert forall|j: int| 0 <= j < i + 1 implies sealed_entry(wk, #[trigger] epoch_keys@[j], entries_view(epochs@)[j]) by {
                if j < i {
                    assert(entries_view(epochs@)[j] == entries_view(old_epochs)[j]);
                }
            }
        }
        i += 1;
    }
    let payload = build_sign_payload(&epochs);
    let sig = identity.sign(payload.as_slice());
    let signature = to_vec(&sig);
    let b = EncryptedKeyBundle { epochs, signature };
    assert(entries_view(b.epochs@).len() == epoch_keys@.len());
    Ok(b)
}

/// The key-wrapping key the recipient holding `my_secret` derives for a
/// sender's X25519 public key.
pub open spec fn recipient_wrapping_key(my_secret: Seq<u8>, sender_x25519: Seq<u8>) -> Seq<u8> {
    wrapping_key(x25519_shared(my_secret, sender_x25519), x25519_public(my_secret), sender_x25519, key_wrap_info())
}

/// Once a prefix of the entries fails to unwrap, the whole list fails with
/// the same error.
proof fn lemma_unwrap_error_extends(wk: Seq<u8>, s: Seq<(u32, Seq<u8>)>, k: int)
    requires
        0 <= k <= s.len(),
        unwrap_entries(wk, s.subrange(0, k)) is Err,
    ensures
        unwrap_entries(wk, s) == unwrap_entries(wk, s.subrange(0, k)),
    decreases s.len(),
{
    if k < s.len() {
        let d = s.drop_last();
        assert(d.subrange(0, k) =~= s.subrange(0, k));
        lemma_unwrap_error_extends(wk, d, k);
    } else {
        assert(s.subrange(0, k) =~= s);
    }
}

/// Decrypt a received key bundle: verify the sender's Ed25519 signature, then
/// unwrap each epoch key. A bundle that `encrypt_key_bundle` made for us, from
/// the holder of the given public keys, opens to exactly the keys it wraps,
/// provided strict verification accepts its honest signature (`sealed_for`).
pub fn decrypt_key_bundle(
    identity: &E2eIdentity,
    sender_x25519: &[u8; 32],
    sender_ed25519: &[u8; 32],
    bundle: &EncryptedKeyBundle,
) -> (r: Result<Vec<EpochKey>, KeyExchangeError>)
    ensures
        ({
            let outcome = open_bundle_outcome(entries_view(bundle.epochs@), bundle.signature@, sender_ed25519@,
                recipient_wrapping_key(identity.x25519_secret(), sender_x25519@));
            &&& r is Ok <==> outcome is Ok
            &&& r matches Ok(v) ==> outcome == Ok::<Seq<(u32, Seq<u8>)>, KeyExchangeError>(key_pairs(v@))
            &&& r matches Err(e) ==> outcome == Err::<Seq<(u32, Seq<u8>)>, KeyExchangeError>(e)
        }),
        forall|keys: Seq<EpochKey>, seed: Seq<u8>, secret: Seq<u8>|
            #[trigger] sealed_for(entries_view(bundle.epochs@), bundle.signature@, keys, seed, secret,
                identity.x25519_secret(), sender_x25519@, sender_ed25519@)
                ==> (r matches Ok(v) && key_pairs(v@) == key_pairs(keys)),
{
    let ghost entries = entries_view(bundle.epochs@);
    let ghost sigv = bundle.signature@;
    let ghost my = identity.x25519_secret();
    let payload = build_sign_payload(&bundle.epochs);
    if bundle.signature.len() != 64 {
        return Err(KeyExchangeError::InvalidSignatureLength);
    }
    let mut sig = [0u8; 64];
    let mut i: usize = 0;
    while i < 64
        invariant
            i <= 64,
            bundle.signature@.len() == 64,
            sig@.len() == 64,
            forall|j: int| 0 <= j < i ==> sig@[j] == bundle.signature@[j],
        decreases 64 - i,
    {
        sig[i] = bundle.signature[i];
        i += 1;
    }
    assert(sig@ =~= bundle.signature@);
    let ok = ed25519_verify(sender_ed25519, payload.as_slice(), &sig);
    if !ok {
        proof {
            assert forall|keys: Seq<EpochKey>, seed: Seq<u8>, secret: Seq<u8>|
                #[trigger] sealed_for(entries, sigv, keys, seed, secret, my, sender_x25519@, sender_ed25519@)
                implies false by {
            }
        }
        return Err(KeyExchangeError::BadSignature);
    }
    let shared_secret = identity.dh(sender_x25519);
    let our_public = identity.x25519_public();
    let info = key_wrap_info_bytes();
    let wkey = derive_wrapping_key(&shared_secret, &our_public, sender_x25519, info.as_slice());
    let ghost wk = wkey@;
    proof {
        assert forall|keys: Seq<EpochKey>, seed: Seq<u8>, secret: Seq<u8>|
            #[trigger] sealed_for(entries, sigv, keys, seed, secret, my, sender_x25519@, sender_ed25519@)
            implies wk == wrapping_key(x25519_shared(secret, x25519_public(my)), x25519_public(secret),
                x25519_public(my), key_wrap_info()) by {
            assert(shared_secret@ == x25519_shared(secret, x25519_public(my)));
            law_wrap_salt_symmetric(our_public@, sender_x25519@);
        }
    }
    let mut keys_out: Vec<EpochKey> = Vec::new();
    proof {
        assert(entries.subrange(0, 0) =~= Seq::<(u32, Seq<u8>)>::empty());
        assert(key_pairs(keys_out@) =~= Seq::<(u32, Seq<u8>)>::empty());
    }
    let n = bundle.epochs.len();
    let mut i: usize = 0;
    while i < n
        invariant
            n == bundle.epochs@.len(),
            entries == entries_view(bundle.epochs@),
            sigv == bundle.signature@,
            sigv.len() == 64,
            my == identity.x25519_secret(),
            ed25519_accepts(sender_ed25519@, sign_payload(entries), sigv),
            i <= n,
            wkey@ == wk,
            wk == recipient_wrapping_key(my, sender_x25519@),
            unwrap_entries(wk, entries.subrange(0, i as int)) == Ok::<Seq<(u32, Seq<u8>)>, KeyExchangeError>(key_pairs(keys_out@)),
            forall|keys: Seq<EpochKey>, seed: Seq<u8>, secret: Seq<u8>|
                #[trigger] sealed_for(entries, sigv, keys, seed, secret, my, sender_x25519@, sender_ed25519@)
                ==> wk == wrapping_key(x25519_shared(secret, x25519_public(my)), x25519_public(secret),
                    x25519_public(my), key_wrap_info())
                    && key_pairs(keys).subrange(0, i as int) == key_pairs(keys_out@),
        decreases n - i,
    {
        let epoch = bundle.epochs[i].0;
        let blob = &bundle.epochs[i].1;
        let ghost entry = entries[i as int];
        assert(entry == (epoch, blob@));
        proof {
            assert(entries.subrange(0, i + 1).drop_last() =~= entries.subrange(0, i as int));
            assert(entries.subrange(0, i + 1).last() == entry);
        }
        if blob.len() < 12 {
            proof {
                assert forall|keys: Seq<EpochKey>, seed: Seq<u8>, secret: Seq<u8>|
                    #[trigger] sealed_for(entries, sigv, keys, seed, secret, my, sender_x25519@, sender_ed25519@)
                    implies false by {
                    assert(sealed_entry(wk, keys[i as int], entries[i as int]));
                }
                lemma_unwrap_error_extends(wk, entries, i + 1);
            }
            return Err(KeyExchangeError::BlobTooShort(epoch));
        }
        let mut nonce = [0u8; 12];
        let mut k: usize = 0;
        while k < 12
            invariant
                k <= 12,
                blob@.len() >= 12,
                nonce@.len() == 12,
                forall|j: int| 0 <= j < k ==> nonce@[j] == blob@[j],
            decreases 12 - k,
        {
            nonce[k] = blob[k];
            k += 1;
        }
        assert(nonce@ =~= blob@.subrange(0, 12));
        let ciphertext = &blob[12..blob.len()];
        let aad = u32_to_le_bytes(epoch);
        proof {
            vstd::bytes::lemma_auto_spec_u32_to_from_le_bytes();
        }
        let plain = aes256_gcm_decrypt(&wkey, &nonce, ciphertext, aad.as_slice());
        proof {
            assert forall|keys: Seq<EpochKey>, seed: Seq<u8>, secret: Seq<u8>|
                #[trigger] sealed_for(entries, sigv, keys, seed, secret, my, sender_x25519@, sender_ed25519@)
                implies (plain matches Some(p) && p@ == keys[i as int].key@) by {
                let ek = keys[i as int];
                assert(sealed_entry(wk, ek, entries[i as int]));
                assert(blob@ == blob@.subrange(0, 12) + aes256_gcm_seal(wk, blob@.subrange(0, 12), ek.key@,
                    spec_u32_to_le_bytes(ek.epoch)));
                assert(ciphertext@ =~= aes256_gcm_seal(wk, nonce@, ek.key@, aad@));
                assert(ek.key@.len() == 32);
            }
        }
        let p = match plain {
            Some(p) => p,
            None => {
                proof {
                    lemma_unwrap_error_extends(wk, entries, i + 1);
                }
                return Err(KeyExchangeError::DecryptFailed(epoch));
            }
        };
        if p.len() != 32 {
            proof {
                assert forall|keys: Seq<EpochKey>, seed: Seq<u8>, secret: Seq<u8>|
                    #[trigger] sealed_for(entries, sigv, keys, seed, secret, my, sender_x25519@, sender_ed25519@)
                    implies false by {
                    assert(keys[i as int].key@.len() == 32);
                }
                lemma_unwrap_error_extends(wk, entries, i + 1);
            }
            return Err(KeyExchangeError::WrongKeyLength(epoch, p.len()));
        }
        let mut key = [0u8; 32];
        let mut k: usize = 0;
        while k < 32
            invariant
                k <= 32,
                p@.len() == 32,
                key@.len() == 32,
                forall|j: int| 0 <= j < k ==> key@[j] == p@[j],
            decreases 32 - k,
        {
            key[k] = p[k];
            k += 1;
        }
        assert(key@ =~= p@);
        let ghost old_out = keys_out@;
        keys_out.push(EpochKey { epoch, key });
        proof {
            assert(key_pairs(keys_out@) =~= key_pairs(old_out).push((epoch, p@)));
            assert forall|keys: Seq<EpochKey>, seed: Seq<u8>, secret: Seq<u8>|
                #[trigger] sealed_for(entries, sigv, keys, seed, secret, my, sender_x25519@, sender_ed25519@)
                implies key_pairs(keys).subrange(0, i + 1) == key_pairs(keys_out@) by {
                assert(sealed_entry(wk, keys[i as int], entries[i as int]));
                assert(key_pairs(keys).subrange(0, i + 1) =~= key_pairs(keys).subrange(0, i as int).push(
                    (keys[i as int].epoch, keys[i as int].key@)));
            }
        }
        i += 1;
    }
    proof {
        assert(entries.subrange(0, n as int) =~= entries);
        assert forall|keys: Seq<EpochKey>, seed: Seq<u8>, secret: Seq<u8>|
            #[trigger] sealed_for(entries, sigv, keys, seed, secret, my, sender_x25519@, sender_ed25519@)
            implies key_pairs(keys_out@) == key_pairs(keys) by {
            assert(key_pairs(keys).subrange(0, n as int) =~= key_pairs(keys));
        }
    }
    Ok(keys_out)
}

} // verus!
