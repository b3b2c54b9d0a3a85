//! Per-message encryption under the chat's group key.
//!
//! Wire format: `[epoch: 4 bytes LE][nonce: 12 bytes][ciphertext + GCM tag]`,
//! 32 bytes beyond the plaintext. The associated data binds the epoch and the
//! sender: `epoch (4 bytes LE) || sender_uuid (16 raw bytes)`.

use vstd::prelude::*;
use vstd::bytes::{spec_u32_from_le_bytes, spec_u32_to_le_bytes, u32_from_le_bytes, u32_to_le_bytes};

use crate::bytes::append_bytes;
use super::group_key::{has_epoch, key_for_epoch, KeyChain};
use super::primitives::{
    aes256_gcm_decrypt, aes256_gcm_encrypt, aes256_gcm_open, aes256_gcm_seal, random_nonce,
    AES_GCM_MAX_LEN,
};

verus! {

/// Why a message could not be encrypted or decrypted.
#[derive(Debug, Clone, Copy, PartialEq, Eq)]
pub enum MessageError {
    /// The key chain holds no key to encrypt with.
    NoKeys,
    /// The cipher refused the plaintext.
    EncryptFailed,
    /// The wire bytes are shorter than epoch + nonce + tag (32 bytes).
    TooShort,
    /// The key chain holds no key for the epoch the wire names.
    UnknownEpoch(u32),
    /// Authentication failed: wrong key, sender or tampered bytes.
    DecryptFailed,
}

/// Bytes of the wire format beyond the plaintext: epoch, nonce and tag.
pub const WIRE_OVERHEAD: usize = 32;

/// The associated data of a message: its epoch (little endian) then the
/// sender's 16 raw UUID bytes.
pub open spec fn message_aad(epoch: u32, sender: Seq<u8>) -> Seq<u8> {
    spec_u32_to_le_bytes(epoch) + sender
}

/// The wire bytes of a message: epoch, nonce, then ciphertext with tag.
pub open spec fn message_wire(epoch: u32, nonce: Seq<u8>, ct: Seq<u8>) -> Seq<u8> {
    spec_u32_to_le_bytes(epoch) + nonce + ct
}

/// The epoch a wire buffer names in its first four bytes.
pub open spec fn wire_epoch(wire: Seq<u8>) -> u32 {
    spec_u32_from_le_bytes(wire.subrange(0, 4))
}

/// What decrypting `wire` from `sender` against the chain `keys` yields.
pub open spec fn decrypt_outcome(keys: Seq<super::group_key::EpochKey>, sender: Seq<u8>, wire: Seq<u8>) -> Result<Seq<u8>, MessageError> {
    if wire.len() < 32 {
        Err(MessageError::TooShort)
    } else if !has_epoch(keys, wire_epoch(wire)) {
        Err(MessageError::UnknownEpoch(wire_epoch(wire)))
    } else {
        match aes256_gcm_open(
            key_for_epoch(keys, wire_epoch(wire)).key@,
            wire.subrange(4, 16),
            wire.subrange(16, wire.len() as int),
            message_aad(wire_epoch(wire), sender),
        ) {
            Some(p) => Ok(p),
            None => Err(MessageError::DecryptFailed),
        }
    }
}

/// The associated data of a message from `sender` at `epoch`.
pub fn build_aad(epoch: u32, sender_uuid: &[u8; 16]) -> (aad: Vec<u8>)
    ensures
        aad@ == message_aad(epoch, sender_uuid@),
{
    let mut aad = u32_to_le_bytes(epoch);
    append_bytes(&mut aad, sender_uuid);
    aad
}

/// Encrypt a message under the newest key of the chain with a fresh random
/// nonce. Succeeds whenever the chain holds a key and the plaintext is within
/// the cipher's limit.
pub fn encrypt_message(keychain: &KeyChain, sender_uuid: &[u8; 16], plaintext: &[u8]) -> (r: Result<Vec<u8>, MessageError>)
    ensures
        keychain@.len() == 0 ==> r == Err::<Vec<u8>, MessageError>(MessageError::NoKeys),
        keychain@.len() > 0 && plaintext@.len() <= AES_GCM_MAX_LEN ==> r is Ok,
        r is Err ==> r == Err::<Vec<u8>, MessageError>(MessageError::NoKeys)
            || r == Err::<Vec<u8>, MessageError>(MessageError::EncryptFailed),
        r matches Ok(wire) ==> ({
            let ek = keychain@.last();
            let nonce = wire@.subrange(4, 16);
            &&& keychain@.len() > 0
            &&& wire@.len() == plaintext@.len() + 32
            &&& wire@ == message_wire(ek.epoch, nonce,
                aes256_gcm_seal(ek.key@, nonce, plaintext@, message_aad(ek.epoch, sender_uuid@)))
        }),
{
    let epoch_key = match keychain.current_key() {
        Some(k) => k,
        None => return Err(MessageError::NoKeys),
    };
    let nonce = random_nonce();
    let aad = build_aad(epoch_key.epoch, sender_uuid);
    proof {
        vstd::bytes::lemma_auto_spec_u32_to_from_le_bytes();
        assert(aad@.len() == 20);
    }
    let ciphertext = match aes256_gcm_encrypt(&epoch_key.key, &nonce, plaintext, aad.as_slice()) {
        Some(c) => c,
        None => return Err(MessageError::EncryptFailed),
    };
    let mut wire = u32_to_le_bytes(epoch_key.epoch);
    append_bytes(&mut wire, &nonce);
    append_bytes(&mut wire, ciphertext.as_slice());
    proof {
        assert(wire@.subrange(4, 16) =~= nonce@);
    }
    Ok(wire)
}

/// Decrypt a message from its wire bytes: the epoch field selects the key,
/// and the epoch and sender are authenticated as associated data. Decrypting
/// what `encrypt_message` produced with the same chain and sender gives the
/// plaintext back.
pub fn decrypt_message(keychain: &KeyChain, sender_uuid: &[u8; 16], wire: &[u8]) -> (r: Result<Vec<u8>, MessageError>)
    ensures
        r is Ok <==> decrypt_outcome(keychain@, sender_uuid@, wire@) is Ok,
        r matches Ok(p) ==> decrypt_outcome(keychain@, sender_uuid@, wire@) == Ok::<Seq<u8>, MessageError>(p@),
        r matches Err(e) ==> decrypt_outcome(keychain@, sender_uuid@, wire@) == Err::<Seq<u8>, MessageError>(e),
        forall|epoch: u32, nonce: Seq<u8>, pt: Seq<u8>|
            has_epoch(keychain@, epoch) && nonce.len() == 12 && pt.len() <= AES_GCM_MAX_LEN
                && wire@.len() == pt.len() + 32
                && wire@ == #[trigger] message_wire(epoch, nonce, aes256_gcm_seal(
                    key_for_epoch(keychain@, epoch).key@, nonce, pt, message_aad(epoch, sender_uuid@)))
                ==> (r matches Ok(p) && p@ == pt),
{
    if wire.len() < WIRE_OVERHEAD {
        return Err(MessageError::TooShort);
    }
    let epoch = u32_from_le_bytes(&wire[0..4]);
    let mut nonce = [0u8; 12];
    let mut i: usize = 0;
    while i < 12
        invariant
            i <= 12,
            wire@.len() >= 32,
            nonce@.len() == 12,
            forall|j: int| 0 <= j < i ==> nonce@[j] == wire@[4 + j],
        decreases 12 - i,
    {
        nonce[i] = wire[4 + i];
        i += 1;
    }
    assert(nonce@ =~= wire@.subrange(4, 16));
    let ciphertext = &wire[16..wire.len()];
    let epoch_key = match keychain.get(epoch) {
        Some(k) => k,
        None => {
            proof { roundtrip_epoch_fact(keychain@, sender_uuid@, wire@); }
            return Err(MessageError::UnknownEpoch(epoch));
        }
    };
    let aad = build_aad(epoch, sender_uuid);
    proof { roundtrip_epoch_fact(keychain@, sender_uuid@, wire@); }
    match aes256_gcm_decrypt(&epoch_key.key, &nonce, ciphertext, aad.as_slice()) {
        Some(p) => Ok(p),
        None => Err(MessageError::DecryptFailed),
    }
}

proof fn roundtrip_epoch_fact(keys: Seq<super::group_key::EpochKey>, sender: Seq<u8>, wire: Seq<u8>)
    requires
        wire.len() >= 32,
    ensures
        forall|epoch: u32, nonce: Seq<u8>, ct: Seq<u8>|
            nonce.len() == 12 && wire == #[trigger] message_wire(epoch, nonce, ct)
                ==> epoch == wire_epoch(wire) && nonce == wire.subrange(4, 16)
                    && ct == wire.subrange(16, wire.len() as int),
{
    vstd::bytes::lemma_auto_spec_u32_to_from_le_bytes();
    assert forall|epoch: u32, nonce: Seq<u8>, ct: Seq<u8>|
        nonce.len() == 12 && wire == #[trigger] message_wire(epoch, nonce, ct)
        implies epoch == wire_epoch(wire) && nonce == wire.subrange(4, 16)
            && ct == wire.subrange(16, wire.len() as int) by {
        assert(spec_u32_to_le_bytes(epoch).len() == 4);
        assert(wire.subrange(0, 4) =~= spec_u32_to_le_bytes(epoch));
        assert(wire.subrange(4, 16) =~= nonce);
        assert(wire.subrange(16, wire.len() as int) =~= ct);
    }
}

} // verus!
