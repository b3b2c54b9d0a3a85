//! A user's end-to-end identity: an Ed25519 signing seed and an independently
//! generated X25519 secret.

use vstd::prelude::*;

use super::primitives::{
    ed25519_public, ed25519_public_key, ed25519_sign, ed25519_signature, random_key, x25519_diffie_hellman,
    x25519_public, x25519_public_key, x25519_shared,
};

verus! {

/// Holds an Ed25519 signing seed and an independently generated X25519 secret.
pub struct E2eIdentity {
    signing_seed: [u8; 32],
    x25519_secret: [u8; 32],
}

/// Why stored key material could not be turned into an identity.
#[derive(Debug, Clone, Copy, PartialEq, Eq)]
pub enum IdentityError {
    /// The Ed25519 private key file is not exactly 32 bytes.
    Ed25519KeyLength,
    /// The X25519 private key file is not exactly 32 bytes.
    X25519KeyLength,
}

impl E2eIdentity {
    /// The Ed25519 secret seed.
    pub closed spec fn signing_seed(&self) -> Seq<u8> {
        self.signing_seed@
    }

    /// The X25519 secret.
    pub closed spec fn x25519_secret(&self) -> Seq<u8> {
        self.x25519_secret@
    }

    /// Build the identity from the contents of `e2e_private.key` (Ed25519
    /// seed) and `x25519_private.key` (X25519 secret); each must be exactly
    /// 32 bytes, the Ed25519 file being checked first.
    pub fn from_key_bytes(ed25519: &[u8], x25519: &[u8]) -> (r: Result<E2eIdentity, IdentityError>)
        ensures
            ed25519@.len() != 32 ==> r == Err::<E2eIdentity, IdentityError>(IdentityError::Ed25519KeyLength),
            ed25519@.len() == 32 && x25519@.len() != 32
                ==> r == Err::<E2eIdentity, IdentityError>(IdentityError::X25519KeyLength),
            ed25519@.len() == 32 && x25519@.len() == 32 ==> (r matches Ok(id)
                && id.signing_seed() == ed25519@ && id.x25519_secret() == x25519@),
    {
        if ed25519.len() != 32 {
            return Err(IdentityError::Ed25519KeyLength);
        }
        if x25519.len() != 32 {
            return Err(IdentityError::X25519KeyLength);
        }
        let mut signing_seed = [0u8; 32];
        let mut x25519_secret = [0u8; 32];
        let mut i: usize = 0;
        while i < 32
            invariant
                i <= 32,
                ed25519@.len() == 32,
                x25519@.len() == 32,
                signing_seed@.len() == 32,
                x25519_secret@.len() == 32,
                forall|j: int| 0 <= j < i ==> signing_seed@[j] == ed25519@[j],
                forall|j: int| 0 <= j < i ==> x25519_secret@[j] == x25519@[j],
            decreases 32 - i,
        {
            signing_seed[i] = ed25519[i];
            x25519_secret[i] = x25519[i];
            i += 1;
        }
        assert(signing_seed@ =~= ed25519@);
        assert(x25519_secret@ =~= x25519@);
        Ok(E2eIdentity { signing_seed, x25519_secret })
    }

    /// A fresh identity: an Ed25519 seed and an independent X25519 secret,
    /// each 32 bytes from the operating system's random source.
    pub fn generate() -> (id: E2eIdentity)
        ensures
            id.signing_seed().len() == 32,
            id.x25519_secret().len() == 32,
    {
        let signing_seed = random_key();
        let x25519_secret = random_key();
        E2eIdentity { signing_seed, x25519_secret }
    }

    /// The two secrets, to be stored as `e2e_private.key` and
    /// `x25519_private.key`; `from_key_bytes` of them gives this identity back.
    pub fn to_key_bytes(&self) -> (r: ([u8; 32], [u8; 32]))
        ensures
            r.0@ == self.signing_seed(),
            r.1@ == self.x25519_secret(),
    {
        (self.signing_seed, self.x25519_secret)
    }

    /// The Ed25519 public (verifying) key.
    pub fn verifying_key(&self) -> (k: [u8; 32])
        ensures
            k@ == ed25519_public(self.signing_seed()),
    {
        ed25519_public_key(&self.signing_seed)
    }

    /// The X25519 public key.
    pub fn x25519_public(&self) -> (k: [u8; 32])
        ensures
            k@ == x25519_public(self.x25519_secret()),
    {
        x25519_public_key(&self.x25519_secret)
    }

    /// Sign a message with the Ed25519 key.
    pub fn sign(&self, message: &[u8]) -> (sig: [u8; 64])
        ensures
            sig@ == ed25519_signature(self.signing_seed(), message@),
    {
        ed25519_sign(&self.signing_seed, message)
    }

    /// X25519 Diffie-Hellman with a peer's public key; the peer, doing the
    /// same with our public key, reaches the same secret.
    pub fn dh(&self, peer_public: &[u8; 32]) -> (shared: [u8; 32])
        ensures
            shared@ == x25519_shared(self.x25519_secret(), peer_public@),
            forall|other: Seq<u8>|
                peer_public@ == #[trigger] x25519_public(other)
                    ==> shared@ == x25519_shared(other, x25519_public(self.x25519_secret())),
    {
        x25519_diffie_hellman(&self.x25519_secret, peer_public)
    }
}

} // verus!
