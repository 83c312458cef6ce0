//! Hashing and signatures.
use ed25519_dalek::{Signature, Signer, SigningKey, Verifier, VerifyingKey};
use vstd::prelude::*;

use crate::bytes::{Digest, ValidatorId};

verus! {

/// The BLAKE3 digest of `data`.
pub uninterp spec fn blake3_digest(data: Seq<u8>) -> [u8; 32];

/// Whether Ed25519 verification accepts `signature` for `message` under
/// `public_key`.
pub uninterp spec fn ed25519_accepts(
    public_key: Seq<u8>,
    message: Seq<u8>,
    signature: Seq<u8>,
) -> bool;

/// The Ed25519 public key that belongs to the secret `seed`.
pub uninterp spec fn ed25519_public_key(seed: Seq<u8>) -> [u8; 32];

/// The Ed25519 signature of `message` under the secret `seed`.
pub uninterp spec fn ed25519_signature(seed: Seq<u8>, message: Seq<u8>) -> [u8; 64];

/// Calls `blake3::hash`, the default hash function of that crate with its 32
/// byte output: the digest is a function of the input alone.
#[verifier::external_body]
pub(crate) fn blake3_hash(data: &[u8]) -> (digest: Digest)
    ensures
        digest == blake3_digest(data@),
{
    blake3::hash(data).into()
}

/// Calls `VerifyingKey::verify` of `ed25519_dalek`, on the key that
/// `VerifyingKey::from_bytes` reads. A key that is no curve point verifies
/// nothing. The answer is a function of the three arguments.
#[verifier::external_body]
pub(crate) fn ed25519_verify(
    public_key: &ValidatorId,
    message: &[u8],
    signature: &[u8; 64],
) -> (accepted: bool)
    ensures
        accepted == ed25519_accepts(public_key@, message@, signature@),
{
    match VerifyingKey::from_bytes(public_key) {
        Ok(key) => key.verify(message, &Signature::from_bytes(signature)).is_ok(),
        Err(_) => false,
    }
}

/// Calls `SigningKey::sign` of `ed25519_dalek`. Signing is deterministic, and
/// the signature is accepted under the public key of the same seed.
#[verifier::external_body]
pub(crate) fn ed25519_sign(seed: &[u8; 32], message: &[u8]) -> (signature: [u8; 64])
    ensures
        signature == ed25519_signature(seed@, message@),
        ed25519_accepts(ed25519_public_key(seed@)@, message@, signature@),
{
    SigningKey::from_bytes(seed).sign(message).to_bytes()
}

/// Calls `SigningKey::verifying_key` of `ed25519_dalek` and takes its bytes: the
/// public key is a function of the seed.
#[verifier::external_body]
pub(crate) fn ed25519_derive_public_key(seed: &[u8; 32]) -> (public_key: ValidatorId)
    ensures
        public_key == ed25519_public_key(seed@),
{
    SigningKey::from_bytes(seed).verifying_key().to_bytes()
}

/// A validator's signing key.
#[derive(Clone, Copy)]
pub struct Keypair {
    pub seed: [u8; 32],
}

impl Keypair {
    /// The key whose secret is `seed`.
    pub fn from_seed(seed: [u8; 32]) -> (key: Self)
        ensures
            key.seed == seed,
    {
        Keypair { seed }
    }

    /// The public key, which is the validator's identity.
    pub fn public_key(&self) -> (id: ValidatorId)
        ensures
            id == ed25519_public_key(self.seed@),
    {
        ed25519_derive_public_key(&self.seed)
    }

    /// Signs `message`.
    pub fn sign(&self, message: &[u8]) -> (signature: [u8; 64])
        ensures
            signature == ed25519_signature(self.seed@, message@),
            ed25519_accepts(ed25519_public_key(self.seed@)@, message@, signature@),
    {
        ed25519_sign(&self.seed, message)
    }
}

} // verus!
