//! Digests and Ed25519 signatures. The primitives are those of the `sha2`,
//! `blake2` and `ed25519-dalek` crates; keys and signatures are held here as
//! their plain bytes.

use blake2::Blake2b512;
use ed25519_dalek::{Signer, Verifier};
use sha2::{Digest, Sha256};
use vstd::prelude::*;

verus! {

/// SHA-256 of `data`, as computed by the `sha2` crate.
pub uninterp spec fn sha256_digest(data: Seq<u8>) -> Seq<u8>;

/// BLAKE2b-512 of `data`, as computed by the `blake2` crate.
pub uninterp spec fn blake2b512_digest(data: Seq<u8>) -> Seq<u8>;

/// The Ed25519 public key that a 32-byte secret seed determines.
pub uninterp spec fn ed25519_public_key(seed: Seq<u8>) -> Seq<u8>;

/// The Ed25519 signature of `message` under the secret seed `seed`
/// (Ed25519 signing is deterministic).
pub uninterp spec fn ed25519_signature(seed: Seq<u8>, message: Seq<u8>) -> Seq<u8>;

/// Whether `ed25519-dalek` accepts `signature` on `message` under the public
/// key whose compressed bytes are `public_key`.
pub uninterp spec fn ed25519_accepts(public_key: Seq<u8>, message: Seq<u8>, signature: Seq<u8>) -> bool;

/// Whether 32 bytes decompress to a point of the curve, that is, whether
/// `ed25519-dalek` takes them as a public key at all.
pub uninterp spec fn ed25519_point_valid(public_key: Seq<u8>) -> bool;

/// `Sha256::digest`: the 32-byte SHA-256 digest of `data`.
#[verifier::external_body]
pub(crate) fn sha256(data: &[u8]) -> (digest: Vec<u8>)
    ensures
        digest@ == sha256_digest(data@),
        digest@.len() == 32,
{
    Sha256::digest(data).to_vec()
}

/// `Blake2b512::digest`: the 64-byte BLAKE2b-512 digest of `data`.
#[verifier::external_body]
pub(crate) fn blake2b512(data: &[u8]) -> (digest: Vec<u8>)
    ensures
        digest@ == blake2b512_digest(data@),
        digest@.len() == 64,
{
    Blake2b512::digest(data).to_vec()
}

/// A public key, as its 32 compressed bytes.
#[derive(Clone, Copy, Debug, PartialEq, Eq)]
pub struct PublicKey {
    pub bytes: [u8; 32],
}

/// A detached Ed25519 signature, as its 64 bytes.
#[derive(Clone, Copy, Debug, PartialEq, Eq)]
pub struct Signature {
    pub bytes: [u8; 64],
}

/// A secret signing key, as its 32-byte seed.
#[derive(Clone, Copy)]
pub struct SecretKey {
    pub seed: [u8; 32],
}

/// `SigningKey::from_bytes(seed).verifying_key()`: the public key of a seed,
/// which is always a valid curve point.
#[verifier::external_body]
fn derive_public_key(seed: &[u8; 32]) -> (public_key: [u8; 32])
    ensures
        public_key@ == ed25519_public_key(seed@),
        ed25519_point_valid(public_key@),
{
    ed25519_dalek::SigningKey::from_bytes(seed).verifying_key().to_bytes()
}

/// `SigningKey::from_bytes(seed).sign(message)`: the deterministic Ed25519
/// signature, which the public key of the same seed accepts (the crate's
/// documented sign-then-verify round trip).
#[verifier::external_body]
fn sign_with_seed(seed: &[u8; 32], message: &[u8]) -> (signature: [u8; 64])
    ensures
        signature@ == ed25519_signature(seed@, message@),
        ed25519_accepts(ed25519_public_key(seed@), message@, signature@),
{
    ed25519_dalek::SigningKey::from_bytes(seed).sign(message).to_bytes()
}

/// `VerifyingKey::from_bytes(public_key)` followed by `verify(message,
/// signature)`: false when the bytes are not a curve point, else whether the
/// signature checks.
#[verifier::external_body]
fn verify_with_key(public_key: &[u8; 32], message: &[u8], signature: &[u8; 64]) -> (accepted: bool)
    ensures
        accepted == ed25519_accepts(public_key@, message@, signature@),
        accepted ==> ed25519_point_valid(public_key@),
{
    match ed25519_dalek::VerifyingKey::from_bytes(public_key) {
        Ok(key) => key.verify(message, &ed25519_dalek::Signature::from_bytes(signature)).is_ok(),
        Err(_) => false,
    }
}

/// `VerifyingKey::from_bytes(public_key)`: succeeds exactly on a curve point.
/// The wording of the error is the crate's and is left unsaid here.
#[verifier::external_body]
fn check_point(public_key: &[u8; 32]) -> (checked: Result<(), String>)
    ensures
        checked is Ok <==> ed25519_point_valid(public_key@),
{
    match ed25519_dalek::VerifyingKey::from_bytes(public_key) {
        Ok(_) => Ok(()),
        Err(error) => Err(error.to_string()),
    }
}

impl SecretKey {
    pub fn from_bytes(seed: [u8; 32]) -> (key: SecretKey)
        ensures
            key.seed == seed,
    {
        SecretKey { seed }
    }

    /// The public key that verifies this key's signatures.
    pub fn public_key(&self) -> (key: PublicKey)
        ensures
            key.bytes@ == ed25519_public_key(self.seed@),
            ed25519_point_valid(key.bytes@),
    {
        PublicKey { bytes: derive_public_key(&self.seed) }
    }

    /// Signs `message`.
    pub fn sign(&self, message: &[u8]) -> (signature: Signature)
        ensures
            signature.bytes@ == ed25519_signature(self.seed@, message@),
            ed25519_accepts(ed25519_public_key(self.seed@), message@, signature.bytes@),
    {
        Signature { bytes: sign_with_seed(&self.seed, message) }
    }
}

impl PublicKey {
    pub fn from_bytes(bytes: [u8; 32]) -> (key: PublicKey)
        ensures
            key.bytes == bytes,
    {
        PublicKey { bytes }
    }

    /// Whether this key accepts `signature` on `message`.
    pub fn verify(&self, message: &[u8], signature: &Signature) -> (accepted: bool)
        ensures
            accepted == ed25519_accepts(self.bytes@, message@, signature.bytes@),
    {
        verify_with_key(&self.bytes, message, &signature.bytes)
    }

    /// Whether the bytes are a usable public key (a point of the curve).
    pub fn check(&self) -> (checked: Result<(), String>)
        ensures
            checked is Ok <==> ed25519_point_valid(self.bytes@),
    {
        check_point(&self.bytes)
    }

    /// Byte-wise equality.
    pub fn same_as(&self, other: &PublicKey) -> (same: bool)
        ensures
            same == (self.bytes@ == other.bytes@),
    {
        let mut i: usize = 0;
        while i < 32
            invariant
                i <= 32,
                forall|j: int| 0 <= j < i ==> self.bytes@[j] == other.bytes@[j],
            decreases 32 - i,
        {
            if self.bytes[i] != other.bytes[i] {
                return false;
            }
            i = i + 1;
        }
        assert(self.bytes@ =~= other.bytes@);
        true
    }
}

impl Signature {
    pub fn from_bytes(bytes: [u8; 64]) -> (signature: Signature)
        ensures
            signature.bytes == bytes,
    {
        Signature { bytes }
    }
}

} // verus!
