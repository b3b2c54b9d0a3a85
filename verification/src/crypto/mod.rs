pub mod group_key;
pub mod identity;
pub mod key_exchange;
pub mod message;
pub mod peer;
pub mod primitives;

use vstd::prelude::*;
use vstd::utf8::{decode_utf8, encode_utf8, valid_utf8};

use group_key::{has_epoch, key_for_epoch, sort_epochs, EpochKey, KeyChain};
use identity::E2eIdentity;
use key_exchange::{
    decrypt_key_bundle, encrypt_key_bundle, entries_view, is_sealed_bundle, key_pairs, open_bundle_outcome,
    recipient_wrapping_key, sealed_for, EncryptedKeyBundle, KeyExchangeError,
};
use message::{decrypt_message, decrypt_outcome, encrypt_message, message_aad, message_wire, MessageError};
use primitives::{
    aes256_gcm_seal, base64_bytes, base64_decode, base64_encode, base64_text, ed25519_public, x25519_public, AES_GCM_MAX_LEN,
};
use crate::text::{decimal, hex_byte, push_decimal, push_hex_byte, push_str, string_from_utf8};

verus! {

/// High-level crypto context for a single chat: our identity and the chat's
/// key chain. Persisting the chain is left to the caller (`keychain()`).
pub struct ChatCrypto {
    identity: E2eIdentity,
    keychain: KeyChain,
}

/// Why a chat message could not be decrypted.
#[derive(Debug, Clone, Copy, PartialEq, Eq)]
pub enum ChatCryptoError {
    /// The ciphertext field is not valid Base64.
    Base64,
    /// The message layer refused the bytes.
    Message(MessageError),
    /// The plaintext is not valid UTF-8.
    Utf8,
}

/// Why a key-distribution payload could not be read.
#[derive(Debug, Clone, Copy, PartialEq, Eq)]
pub enum WireError {
    /// The encrypted key of this entry (by position) is not valid Base64.
    EncryptedKeyBase64(usize),
    /// The signature is not valid Base64.
    SignatureBase64,
}

/// One epoch of a key-distribution payload as it travels in JSON.
#[derive(Debug, Clone)]
pub struct WireEpochKey {
    pub epoch: u64,
    pub encrypted_key: String,
}

/// A key-distribution payload as it travels in JSON.
#[derive(Debug, Clone)]
pub struct KeyDistributePayload {
    pub recipient_id: String,
    pub epochs: Vec<WireEpochKey>,
    pub signature: String,
}

/// Everything a key-distribution payload carries besides the recipient.
pub open spec fn wire_entries(p: KeyDistributePayload) -> Seq<(u64, Seq<char>)> {
    p.epochs@.map_values(|w: WireEpochKey| (w.epoch, w.encrypted_key@))
}

/// The wire form of bundle entries: epochs widened, blobs in Base64.
pub open spec fn entries_to_wire(entries: Seq<(u32, Seq<u8>)>) -> Seq<(u64, Seq<char>)> {
    entries.map_values(|e: (u32, Seq<u8>)| (e.0 as u64, base64_text(e.1)))
}

/// Apply `add_epoch` for each key in order.
pub open spec fn add_epochs(s: Seq<EpochKey>, ks: Seq<EpochKey>) -> Seq<EpochKey>
    decreases ks.len(),
{
    if ks.len() == 0 {
        s
    } else {
        let prev = add_epochs(s, ks.drop_last());
        let k = ks.last();
        if has_epoch(prev, k.epoch) { prev } else { sort_epochs(prev.push(k)) }
    }
}

proof fn lemma_wire_entry(p: KeyDistributePayload, entries: Seq<(u32, Seq<u8>)>, i: int)
    requires
        wire_entries(p) == entries_to_wire(entries),
        0 <= i < p.epochs@.len(),
    ensures
        i < entries.len(),
        p.epochs@[i].epoch == entries[i].0 as u64,
        p.epochs@[i].encrypted_key@ == base64_text(entries[i].1),
{
    assert(wire_entries(p).len() == p.epochs@.len());
    assert(entries_to_wire(entries).len() == entries.len());
    assert(wire_entries(p)[i] == (p.epochs@[i].epoch, p.epochs@[i].encrypted_key@));
    assert(entries_to_wire(entries)[i] == (entries[i].0 as u64, base64_text(entries[i].1)));
}

/// Serialize a key bundle into its wire payload.
pub fn bundle_to_wire_payload(bundle: &EncryptedKeyBundle, recipient_id: &str) -> (p: KeyDistributePayload)
    ensures
        p.recipient_id@ == recipient_id@,
        wire_entries(p) == entries_to_wire(entries_view(bundle.epochs@)),
        p.signature@ == base64_text(bundle.signature@),
{
    let mut epochs: Vec<WireEpochKey> = Vec::new();
    let n = bundle.epochs.len();
    let mut i: usize = 0;
    while i < n
        invariant
            n == bundle.epochs@.len(),
            i <= n,
            epochs@.len() == i,
            forall|j: int| 0 <= j < i ==> (#[trigger] epochs@[j]).epoch == bundle.epochs@[j].0 as u64
                && epochs@[j].encrypted_key@ == base64_text(bundle.epochs@[j].1@),
        decreases n - i,
    {
        let e = &bundle.epochs[i];
        let w = WireEpochKey { epoch: e.0 as u64, encrypted_key: base64_encode(e.1.as_slice()) };
        epochs.push(w);
        i += 1;
    }
    let p = KeyDistributePayload {
        recipient_id: recipient_id.to_owned(),
        epochs,
        signature: base64_encode(bundle.signature.as_slice()),
    };
    assert(wire_entries(p) =~= entries_to_wire(entries_view(bundle.epochs@)));
    p
}

/// Parse a key-distribution payload into a bundle (epochs are truncated to 32
/// bits, keys and signature Base64-decoded). Parsing what
/// `bundle_to_wire_payload` wrote gives the bundle back.
pub fn parse_key_bundle_from_wire(payload: &KeyDistributePayload) -> (r: Result<EncryptedKeyBundle, WireError>)
    ensures
        r matches Ok(b) ==> ({
            &&& entries_view(b.epochs@).len() == payload.epochs@.len()
            &&& forall|i: int| 0 <= i < payload.epochs@.len() ==>
                (#[trigger] entries_view(b.epochs@)[i]).0 == payload.epochs@[i].epoch as u32
                && base64_bytes(payload.epochs@[i].encrypted_key@) == Some(entries_view(b.epochs@)[i].1)
            &&& base64_bytes(payload.signature@) == Some(b.signature@)
        }),
        r is Err <==> (exists|i: int| 0 <= i < payload.epochs@.len()
            && base64_bytes(#[trigger] payload.epochs@[i].encrypted_key@) is None)
            || base64_bytes(payload.signature@) is None,
        forall|entries: Seq<(u32, Seq<u8>)>, sig: Seq<u8>|
            #![trigger entries_to_wire(entries), base64_text(sig)]
            wire_entries(*payload) == entries_to_wire(entries) && payload.signature@ == base64_text(sig)
                ==> (r matches Ok(b) && entries_view(b.epochs@) == entries && b.signature@ == sig),
{
    let mut epochs: Vec<(u32, Vec<u8>)> = Vec::new();
    let n = payload.epochs.len();
    let mut i: usize = 0;
    while i < n
        invariant
            n == payload.epochs@.len(),
            i <= n,
            epochs@.len() == i,
            forall|j: int| 0 <= j < i ==> (#[trigger] entries_view(epochs@)[j]).0 == payload.epochs@[j].epoch as u32
                && base64_bytes(payload.epochs@[j].encrypted_key@) == Some(entries_view(epochs@)[j].1),
            forall|entries: Seq<(u32, Seq<u8>)>|
                wire_entries(*payload) == #[trigger] entries_to_wire(entries)
                    ==> entries_view(epochs@) == entries.subrange(0, i as int),
            forall|j: int| 0 <= j < i ==> base64_bytes(#[trigger] payload.epochs@[j].encrypted_key@) is Some,
        decreases n - i,
    {
        let w = &payload.epochs[i];
        let blob = match base64_decode(w.encrypted_key.as_str()) {
            Some(b) => b,
            None => {
                proof {
                    assert(base64_bytes(payload.epochs@[i as int].encrypted_key@) is None);
                    assert forall|entries: Seq<(u32, Seq<u8>)>|
                        wire_entries(*payload) == #[trigger] entries_to_wire(entries)
                        implies false by {
                        lemma_wire_entry(*payload, entries, i as int);
                    }
                }
                return Err(WireError::EncryptedKeyBase64(i));
            }
        };
        let ghost old_epochs = epochs@;
        let epoch: u32 = #[verifier::truncate] (w.epoch as u32);
        epochs.push((epoch, blob));
        proof {
            assert(entries_view(epochs@) =~= entries_view(old_epochs).push((w.epoch as u32, blob@)));
            assert forall|entries: Seq<(u32, Seq<u8>)>|
                wire_entries(*payload) == #[trigger] entries_to_wire(entries)
                implies entries_view(epochs@) == entries.subrange(0, i + 1) by {
                lemma_wire_entry(*payload, entries, i as int);
                let e = entries[i as int];
                let e0 = e.0;
                assert((e0 as u64) as u32 == e0) by (bit_vector);
                assert(entries.subrange(0, i + 1) =~= entries.subrange(0, i as int).push(e));
            }
        }
        i += 1;
    }
    let signature = match base64_decode(payload.signature.as_str()) {
        Some(s) => s,
        None => return Err(WireError::SignatureBase64),
    };
    proof {
        assert forall|entries: Seq<(u32, Seq<u8>)>|
            wire_entries(*payload) == #[trigger] entries_to_wire(entries)
            implies entries_view(epochs@) == entries by {
            assert(entries.len() == entries_to_wire(entries).len());
            assert(entries.subrange(0, n as int) =~= entries);
        }
    }
    Ok(EncryptedKeyBundle { epochs, signature })
}

/// The wire bytes of `text` sealed with `nonce` under the newest key of
/// `keys`, as sent by `sender`.
pub open spec fn sealed_text(keys: Seq<EpochKey>, sender: Seq<u8>, nonce: Seq<u8>, text: Seq<char>) -> Seq<u8> {
    let ek = keys.last();
    message_wire(ek.epoch, nonce, aes256_gcm_seal(ek.key@, nonce, encode_utf8(text), message_aad(ek.epoch, sender)))
}

impl ChatCrypto {
    /// Our identity.
    pub closed spec fn identity_spec(&self) -> E2eIdentity {
        self.identity
    }

    /// The chat's key chain.
    pub closed spec fn keys(&self) -> Seq<EpochKey> {
        self.keychain@
    }

    /// Crypto context for an existing chat whose key chain was found on disk;
    /// `None` when there are no keys yet.
    pub fn load(identity: E2eIdentity, keychain: Option<KeyChain>) -> (r: Option<Self>)
        ensures
            r is Some <==> keychain is Some,
            r matches Some(c) ==> c.identity_spec() == identity && c.keys() == keychain->Some_0@,
    {
        match keychain {
            Some(keychain) => Some(ChatCrypto { identity, keychain }),
            None => None,
        }
    }

    /// Crypto context for a newly created chat: a fresh epoch-0 key.
    pub fn create_new(identity: E2eIdentity) -> (c: Self)
        ensures
            c.identity_spec() == identity,
            c.keys().len() == 1,
            c.keys()[0].epoch == 0,
    {
        ChatCrypto { identity, keychain: KeyChain::generate_new() }
    }

    /// Crypto context with an empty chain (for joiners awaiting keys).
    pub fn from_empty(identity: E2eIdentity) -> (c: Self)
        ensures
            c.identity_spec() == identity,
            c.keys().len() == 0,
    {
        proof {
            assert(Seq::<EpochKey>::empty().len() == 0);
        }
        let kc = KeyChain::from_epochs(Vec::new());
        ChatCrypto { identity, keychain: kc }
    }

    /// Encrypt a text message: the Base64 wire bytes and the epoch used.
    pub fn encrypt(&self, sender_uuid: &[u8; 16], plaintext: &str) -> (r: Result<(String, u32), MessageError>)
        ensures
            self.keys().len() == 0 ==> r == Err::<(String, u32), MessageError>(MessageError::NoKeys),
            self.keys().len() > 0 && encode_utf8(plaintext@).len() <= AES_GCM_MAX_LEN ==> r is Ok,
            r is Err ==> r == Err::<(String, u32), MessageError>(MessageError::NoKeys)
                || r == Err::<(String, u32), MessageError>(MessageError::EncryptFailed),
            r matches Ok((text, epoch)) ==> {
                &&& epoch == self.keys().last().epoch
                &&& exists|nonce: Seq<u8>| {
                    &&& nonce.len() == 12
                    &&& sealed_text(self.keys(), sender_uuid@, nonce, plaintext@).len()
                        == encode_utf8(plaintext@).len() + 32
                    &&& text@ == base64_text(#[trigger] sealed_text(self.keys(), sender_uuid@, nonce, plaintext@))
                }
            },
    {
        let wire = encrypt_message(&self.keychain, sender_uuid, plaintext.as_bytes())?;
        let b64 = base64_encode(wire.as_slice());
        let epoch = self.keychain.current_key().unwrap().epoch;
        proof {
            let nonce = wire@.subrange(4, 16);
            assert(wire@ == sealed_text(self.keys(), sender_uuid@, nonce, plaintext@));
        }
        Ok((b64, epoch))
    }

    /// Decrypt a message from its Base64 ciphertext field. Decrypting what
    /// `encrypt` produced, from the same sender with a chain whose newest key
    /// is the one its epoch selects, gives the text back.
    pub fn decrypt(&self, sender_uuid: &[u8; 16], ciphertext_b64: &str) -> (r: Result<String, ChatCryptoError>)
        ensures
            r matches Ok(s) ==> exists|wire: Seq<u8>| {
                &&& base64_bytes(ciphertext_b64@) == Some(wire)
                &&& #[trigger] decrypt_outcome(self.keys(), sender_uuid@, wire) == Ok::<Seq<u8>, MessageError>(encode_utf8(s@))
            },
            r matches Err(ChatCryptoError::Message(e)) ==> exists|wire: Seq<u8>| {
                &&& base64_bytes(ciphertext_b64@) == Some(wire)
                &&& #[trigger] decrypt_outcome(self.keys(), sender_uuid@, wire) == Err::<Seq<u8>, MessageError>(e)
            },
            r == Err::<String, ChatCryptoError>(ChatCryptoError::Base64) <==> base64_bytes(ciphertext_b64@) is None,
            r == Err::<String, ChatCryptoError>(ChatCryptoError::Utf8) ==> exists|wire: Seq<u8>| {
                &&& base64_bytes(ciphertext_b64@) == Some(wire)
                &&& #[trigger] decrypt_outcome(self.keys(), sender_uuid@, wire) is Ok
                &&& !valid_utf8(decrypt_outcome(self.keys(), sender_uuid@, wire)->Ok_0)
            },
            forall|nonce: Seq<u8>, text: Seq<char>|
                ciphertext_b64@ == base64_text(#[trigger] sealed_text(self.keys(), sender_uuid@, nonce, text))
                    && nonce.len() == 12 && encode_utf8(text).len() <= AES_GCM_MAX_LEN && self.keys().len() > 0
                    && key_for_epoch(self.keys(), self.keys().last().epoch) == self.keys().last()
                    && sealed_text(self.keys(), sender_uuid@, nonce, text).len() == encode_utf8(text).len() + 32
                    ==> (r matches Ok(s) && s@ == text),
    {
        let wire = match base64_decode(ciphertext_b64) {
            Some(w) => w,
            None => return Err(ChatCryptoError::Base64),
        };
        proof {
            if self.keys().len() > 0 {
                assert(has_epoch(self.keys(), self.keys().last().epoch)) by {
                    assert(self.keys()[self.keys().len() - 1] == self.keys().last());
                }
            }
        }
        let plaintext = match decrypt_message(&self.keychain, sender_uuid, wire.as_slice()) {
            Ok(p) => p,
            Err(e) => return Err(ChatCryptoError::Message(e)),
        };
        proof {
            broadcast use vstd::utf8::encode_utf8_valid_utf8, vstd::utf8::encode_utf8_decode_utf8;
            if valid_utf8(plaintext@) {
                vstd::utf8::decode_utf8_encode_utf8(plaintext@);
            }
        }
        match string_from_utf8(plaintext) {
            Some(s) => Ok(s),
            None => Err(ChatCryptoError::Utf8),
        }
    }

    /// The newest epoch of the chain, `None` while it is empty.
    pub fn current_epoch(&self) -> (r: Option<u32>)
        ensures
            r == (if self.keys().len() == 0 { None } else { Some(self.keys().last().epoch) }),
    {
        self.keychain.current_epoch()
    }

    /// Seal keys for a recipient: the whole chain (a member joining) or only
    /// the newest key.
    pub fn prepare_key_bundle(&self, recipient_x25519: &[u8; 32], all_epochs: bool) -> (r: Result<EncryptedKeyBundle, KeyExchangeError>)
        requires
            all_epochs || self.keys().len() > 0,
        ensures
            r matches Ok(b) && is_sealed_bundle(entries_view(b.epochs@), b.signature@,
                if all_epochs { self.keys() } else { seq![self.keys().last()] },
                self.identity_spec().signing_seed(), self.identity_spec().x25519_secret(), recipient_x25519@),
    {
        if all_epochs {
            encrypt_key_bundle(&self.identity, recipient_x25519, self.keychain.all_epochs())
        } else {
            let newest = *self.keychain.current_key().unwrap();
            let mut one: Vec<EpochKey> = Vec::new();
            one.push(newest);
            proof {
                assert(one@ =~= seq![self.keys().last()]);
            }
            encrypt_key_bundle(&self.identity, recipient_x25519, one.as_slice())
        }
    }

    /// Open a key bundle from another member and add each of its keys to the
    /// chain (a known epoch keeps its key). On error the chain is unchanged.
    /// A bundle that sender sealed for us with its own keys adds exactly those.
    pub fn receive_key_bundle(
        &mut self,
        sender_x25519: &[u8; 32],
        sender_ed25519: &[u8; 32],
        bundle: &EncryptedKeyBundle,
    ) -> (r: Result<(), KeyExchangeError>)
        ensures
            final(self).identity_spec() == old(self).identity_spec(),
            ({
                let outcome = open_bundle_outcome(entries_view(bundle.epochs@), bundle.signature@, sender_ed25519@,
                    recipient_wrapping_key(old(self).identity_spec().x25519_secret(), sender_x25519@));
                &&& r is Ok <==> outcome is Ok
                &&& r matches Err(e) ==> outcome == Err::<Seq<(u32, Seq<u8>)>, KeyExchangeError>(e)
                    && final(self).keys() == old(self).keys()
                &&& r is Ok ==> exists|ks: Seq<EpochKey>| {
                    &&& #[trigger] key_pairs(ks) == outcome->Ok_0
                    &&& final(self).keys() == add_epochs(old(self).keys(), ks)
                }
            }),
            forall|keys: Seq<EpochKey>, seed: Seq<u8>, secret: Seq<u8>|
                #[trigger] sealed_for(entries_view(bundle.epochs@), bundle.signature@, keys, seed, secret,
                    old(self).identity_spec().x25519_secret(), sender_x25519@, sender_ed25519@)
                    ==> (r is Ok && exists|ks: Seq<EpochKey>| {
                        &&& #[trigger] key_pairs(ks) == key_pairs(keys)
                        &&& final(self).keys() == add_epochs(old(self).keys(), ks)
                    }),
    {
        let epoch_keys = decrypt_key_bundle(&self.identity, sender_x25519, sender_ed25519, bundle)?;
        let ghost start = self.keychain@;
        let n = epoch_keys.len();
        let mut i: usize = 0;
        while i < n
            invariant
                n == epoch_keys@.len(),
                i <= n,
                self.keychain@ == add_epochs(start, epoch_keys@.subrange(0, i as int)),
                self.identity == old(self).identity,
            decreases n - i,
        {
            let ek = epoch_keys[i];
            self.keychain.add_epoch(ek);
            proof {
                let pre = epoch_keys@.subrange(0, i + 1);
                assert(pre.drop_last() =~= epoch_keys@.subrange(0, i as int));
            }
            i += 1;
        }
        proof {
            assert(epoch_keys@.subrange(0, n as int) =~= epoch_keys@);
        }
        Ok(())
    }

    /// Rotate the group key (a member was removed): a new epoch one past the
    /// newest with a fresh key. Returns the new epoch.
    pub fn rotate_key(&mut self) -> (r: u32)
        requires
            old(self).keys().len() > 0,
            old(self).keys().last().epoch < u32::MAX,
        ensures
            final(self).identity_spec() == old(self).identity_spec(),
            final(self).keys().len() == old(self).keys().len() + 1,
            final(self).keys().subrange(0, old(self).keys().len() as int) == old(self).keys(),
            final(self).keys().last().epoch == r,
            r == old(self).keys().last().epoch + 1,
    {
        self.keychain.rotate().epoch
    }

    /// Our identity.
    pub fn identity(&self) -> (r: &E2eIdentity)
        ensures
            *r == self.identity_spec(),
    {
        &self.identity
    }

    /// The chat's key chain (to persist it).
    pub fn keychain(&self) -> (r: &KeyChain)
        ensures
            r@ == self.keys(),
    {
        &self.keychain
    }
}

/// The first four bytes of a key, in lower-case hexadecimal.
pub open spec fn hex_prefix4(k: Seq<u8>) -> Seq<char> {
    hex_byte(k[0]) + hex_byte(k[1]) + hex_byte(k[2]) + hex_byte(k[3])
}

/// The text that identifies our keys: the hexadecimal prefixes of the
/// Ed25519 and X25519 public keys, then the newest epoch (`none` while the
/// chain is empty).
pub open spec fn fingerprint_text(ed_public: Seq<u8>, x_public: Seq<u8>, epoch: Option<u32>) -> Seq<char> {
    "ed:"@ + hex_prefix4(ed_public) + " x:"@ + hex_prefix4(x_public) + " epoch:"@ + match epoch {
        Some(e) => decimal(e as nat),
        None => "none"@,
    }
}

/// The fingerprint line of a pair of public keys and an epoch, in the form
/// `ed:0a1b2c3d x:4e5f6071 epoch:3`.
pub fn key_fingerprint(ed_public: &[u8; 32], x_public: &[u8; 32], epoch: Option<u32>) -> (r: String)
    ensures
        r@ == fingerprint_text(ed_public@, x_public@, epoch),
{
    let mut r = String::new();
    push_str(&mut r, "ed:");
    let mut i: usize = 0;
    while i < 4
        invariant
            i <= 4,
            ed_public@.len() == 32,
            r@ == "ed:"@ + hex_bytes_upto(ed_public@, i as int),
        decreases 4 - i,
    {
        push_hex_byte(&mut r, ed_public[i]);
        i += 1;
    }
    push_str(&mut r, " x:");
    let ghost mid = r@;
    let mut j: usize = 0;
    while j < 4
        invariant
            j <= 4,
            x_public@.len() == 32,
            r@ == mid + hex_bytes_upto(x_public@, j as int),
        decreases 4 - j,
    {
        push_hex_byte(&mut r, x_public[j]);
        j += 1;
    }
    push_str(&mut r, " epoch:");
    match epoch {
        Some(e) => push_decimal(&mut r, e),
        None => push_str(&mut r, "none"),
    }
    proof {
        reveal_with_fuel(hex_bytes_upto, 5);
        assert(hex_bytes_upto(ed_public@, 4) =~= hex_prefix4(ed_public@));
        assert(hex_bytes_upto(x_public@, 4) =~= hex_prefix4(x_public@));
    }
    assert(r@ =~= fingerprint_text(ed_public@, x_public@, epoch));
    r
}

/// The hexadecimal digits of the first `n` bytes of `k`.
pub open spec fn hex_bytes_upto(k: Seq<u8>, n: int) -> Seq<char>
    decreases n,
{
    if n <= 0 {
        Seq::empty()
    } else {
        hex_bytes_upto(k, n - 1) + hex_byte(k[n - 1])
    }
}

/// The 16 bytes of a uuid written as text, as `uuid::Uuid::parse_str` reads
/// it (simple, hyphenated, urn or braced form); `None` when it is not one.
pub uninterp spec fn uuid_parsed(text: Seq<char>) -> Option<Seq<u8>>;

/// `uuid::Uuid::parse_str` and `Uuid::as_bytes`: the uuid's bytes, exactly
/// when the text is a uuid; which bytes is left to the named result.
#[verifier::external_body]
fn parse_uuid(text: &str) -> (r: Option<[u8; 16]>)
    ensures
        r is None <==> uuid_parsed(text@) is None,
        r matches Some(b) ==> uuid_parsed(text@) == Some(b@),
{
    uuid::Uuid::parse_str(text).ok().map(|u| *u.as_bytes())
}

/// The 16 bytes of a uuid given as text, or `None` when it is not one.
pub fn uuid_bytes(text: &str) -> (r: Option<[u8; 16]>)
    ensures
        r is None <==> uuid_parsed(text@) is None,
        r matches Some(b) ==> uuid_parsed(text@) == Some(b@),
{
    parse_uuid(text)
}

/// The text of a received message, if its Base64 field decodes, the message
/// layer opens it with `keys` for `sender`, and the plaintext is UTF-8.
pub open spec fn opened_text(keys: Seq<EpochKey>, sender: Seq<u8>, ciphertext_b64: Seq<char>) -> Option<Seq<char>> {
    match base64_bytes(ciphertext_b64) {
        Some(wire) => match decrypt_outcome(keys, sender, wire) {
            Ok(p) => if valid_utf8(p) { Some(decode_utf8(p)) } else { None },
            Err(_) => None,
        },
        None => None,
    }
}

/// What the message list shows for a received message, given the text the
/// sender uuid parsed to: the text when it opens, otherwise a placeholder
/// saying why not (no keys yet, a sender that is no uuid, or a message that
/// does not open).
pub open spec fn shown_body(keys: Option<Seq<EpochKey>>, sender: Option<Seq<u8>>, ciphertext_b64: Seq<char>) -> Seq<char> {
    match keys {
        None => "<awaiting keys>"@,
        Some(ks) => match sender {
            None => "<invalid sender>"@,
            Some(b) => match opened_text(ks, b, ciphertext_b64) {
                Some(t) => t,
                None => "<decrypt failed>"@,
            },
        },
    }
}

/// The body to show for a message whose sender uuid parsed to `sender`
/// (`None`: not a uuid): its decrypted text, or `<awaiting keys>` without a
/// crypto context, `<invalid sender>`, or `<decrypt failed>` when the message
/// does not open.
pub fn body_for_sender(crypto: Option<&ChatCrypto>, sender: Option<[u8; 16]>, ciphertext_b64: &str) -> (r: String)
    ensures
        r@ == shown_body(
            match crypto { Some(c) => Some(c.keys()), None => None },
            match sender { Some(b) => Some(b@), None => None },
            ciphertext_b64@,
        ),
{
    let mut r = String::new();
    match crypto {
        None => {
            push_str(&mut r, "<awaiting keys>");
            r
        },
        Some(c) => match sender {
            None => {
                push_str(&mut r, "<invalid sender>");
                r
            },
            Some(b) => match c.decrypt(&b, ciphertext_b64) {
                Ok(text) => {
                    proof {
                        broadcast use vstd::utf8::encode_utf8_valid_utf8, vstd::utf8::encode_utf8_decode_utf8;
                    }
                    text
                },
                Err(_) => {
                    push_str(&mut r, "<decrypt failed>");
                    r
                },
            },
        },
    }
}

/// The body to show for a message from `sender_uuid` (see `body_for_sender`).
pub fn message_body_for_display(crypto: Option<&ChatCrypto>, sender_uuid: &str, ciphertext_b64: &str) -> (r: String)
    ensures
        r@ == shown_body(
            match crypto { Some(c) => Some(c.keys()), None => None },
            uuid_parsed(sender_uuid@),
            ciphertext_b64@,
        ),
{
    let sender = parse_uuid(sender_uuid);
    proof {
        assert((match sender { Some(b) => Some(b@), None => None::<Seq<u8>> }) == uuid_parsed(sender_uuid@));
    }
    body_for_sender(crypto, sender, ciphertext_b64)
}

} // verus!
