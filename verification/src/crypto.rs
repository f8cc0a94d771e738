//! Ed25519 signing keys and signature verification, and the Blake2b-256 hash,
//! over the `ed25519-dalek` and `blake2` crates.

use crate::types::{Ed25519PublicKey, Ed25519Signature};
use ed25519_dalek::{Signer, Verifier};
use vstd::prelude::*;

verus! {

/// The Ed25519 public key (compressed point bytes) that `ed25519-dalek` derives
/// from a 32-byte secret seed.
pub uninterp spec fn ed25519_public_key(seed: Seq<u8>) -> Seq<u8>;

/// The Ed25519 signature bytes that `ed25519-dalek` produces for `message`
/// under the signing key with the 32-byte secret `seed`.
pub uninterp spec fn ed25519_signature(seed: Seq<u8>, message: Seq<u8>) -> Seq<u8>;

/// Whether `ed25519-dalek` accepts `signature` on `message` under the public key
/// bytes `public_key`: the key decompresses to a curve point and the signature
/// passes the ordinary (cofactorless) verification check.
pub uninterp spec fn ed25519_accepts(public_key: Seq<u8>, message: Seq<u8>, signature: Seq<u8>) -> bool;

/// The Blake2b digest with 256-bit output of `data`, as `blake2` computes it.
pub uninterp spec fn blake2b_256_digest(data: Seq<u8>) -> Seq<u8>;

/// Whether `signature` is the signature of `message` by the signing key whose
/// public key is `public_key`, for some 32-byte seed.
pub open spec fn signed_by_key_of(public_key: Seq<u8>, message: Seq<u8>, signature: Seq<u8>) -> bool {
    exists|seed: Seq<u8>|
        seed.len() == 32 && #[trigger] ed25519_public_key(seed) == public_key
            && ed25519_signature(seed, message) == signature
}

/// Calls `SigningKey::from_bytes(seed).verifying_key().to_bytes()` of `ed25519-dalek`:
/// the result is, by name, the public key of the seed. The function is deterministic
/// (it expands the seed with SHA-512 and multiplies the base point).
#[verifier::external_body]
fn dalek_public_key(seed: &[u8; 32]) -> (public_key: [u8; 32])
    ensures
        public_key@ == ed25519_public_key(seed@),
{
    ed25519_dalek::SigningKey::from_bytes(seed).verifying_key().to_bytes()
}

/// Calls `Signer::sign` of `ed25519-dalek`'s `SigningKey::from_bytes(seed)` and
/// returns the signature bytes: by name, the signature of the message under the seed.
/// Ed25519 signing is deterministic (RFC 8032), so the name depends on the
/// arguments alone.
#[verifier::external_body]
fn dalek_sign(seed: &[u8; 32], message: &[u8]) -> (signature: [u8; 64])
    ensures
        signature@ == ed25519_signature(seed@, message@),
{
    ed25519_dalek::SigningKey::from_bytes(seed).sign(message).to_bytes()
}

/// Calls `VerifyingKey::from_bytes` and then `Verifier::verify` of `ed25519-dalek`;
/// a key that does not decompress is refused. The contract claims that the answer is
/// the named `ed25519_accepts`, and that a signature made by `dalek_sign` with a seed
/// is accepted under the public key that `dalek_public_key` derives from the same seed
/// (`raw_sign` and `raw_verify` compute the same `R`, and the compressed key decompresses).
#[verifier::external_body]
fn dalek_verify(public_key: &[u8; 32], message: &[u8], signature: &[u8; 64]) -> (ok: bool)
    ensures
        ok == ed25519_accepts(public_key@, message@, signature@),
        signed_by_key_of(public_key@, message@, signature@) ==> ok,
{
    match ed25519_dalek::VerifyingKey::from_bytes(public_key) {
        Ok(key) => key.verify(message, &ed25519_dalek::Signature::from_bytes(signature)).is_ok(),
        Err(_) => false,
    }
}

/// Calls `SigningKey::generate` of `ed25519-dalek` with `rand::thread_rng()` and
/// returns the new key's 32-byte secret. Nothing is claimed of the bytes: they are random.
#[verifier::external_body]
fn dalek_random_seed() -> (seed: [u8; 32]) {
    ed25519_dalek::SigningKey::generate(&mut rand::thread_rng()).to_bytes()
}

/// Calls `Digest::digest` of `blake2`'s `Blake2b<U32>`: by name, the Blake2b-256 digest.
#[verifier::external_body]
fn blake2b_digest(data: &[u8]) -> (digest: [u8; 32])
    ensures
        digest@ == blake2b_256_digest(data@),
{
    <blake2::Blake2b<blake2::digest::consts::U32> as blake2::Digest>::digest(data).into()
}

/// Blake2b-256 hash of `data`.
pub fn blake2b_256(data: &[u8]) -> (digest: [u8; 32])
    ensures
        digest@ == blake2b_256_digest(data@),
{
    blake2b_digest(data)
}

/// The signing context of availability assurances, `X_A = "jam_available"`.
pub open spec fn assurance_context() -> Seq<u8> {
    seq![0x6au8, 0x61, 0x6d, 0x5f, 0x61, 0x76, 0x61, 0x69, 0x6c, 0x61, 0x62, 0x6c, 0x65]
}

/// The message a validator signs to assure availability:
/// `X_A ⌢ H(E(H_P, a_f))`, with `H` Blake2b-256 and `E` the concatenation of the
/// parent hash and the bitfield bytes.
pub open spec fn assurance_message(parent_hash: Seq<u8>, bitfield: Seq<u8>) -> Seq<u8> {
    assurance_context() + blake2b_256_digest(parent_hash + bitfield)
}

/// Build the message signed by an availability assurance:
/// `"jam_available" ⌢ Blake2b-256(parent_hash ⌢ bitfield)`.
pub fn build_assurance_message(parent_hash: &[u8; 32], bitfield: &[u8]) -> (message: Vec<u8>)
    ensures
        message@ == assurance_message(parent_hash@, bitfield@),
{
    let mut data: Vec<u8> = Vec::new();
    let mut i: usize = 0;
    while i < 32
        invariant
            i <= 32,
            parent_hash@.len() == 32,
            data@ == parent_hash@.subrange(0, i as int),
        decreases 32 - i,
    {
        data.push(parent_hash[i]);
        proof {
            assert(parent_hash@.subrange(0, i + 1) =~= parent_hash@.subrange(0, i as int).push(parent_hash@[i as int]));
        }
        i = i + 1;
    }
    let mut j: usize = 0;
    while j < bitfield.len()
        invariant
            j <= bitfield@.len(),
            parent_hash@.len() == 32,
            data@ == parent_hash@ + bitfield@.subrange(0, j as int),
        decreases bitfield@.len() - j,
    {
        data.push(bitfield[j]);
        proof {
            assert(bitfield@.subrange(0, j + 1) =~= bitfield@.subrange(0, j as int).push(bitfield@[j as int]));
        }
        j = j + 1;
    }
    proof {
        assert(parent_hash@.subrange(0, 32) =~= parent_hash@);
        assert(bitfield@.subrange(0, bitfield@.len() as int) =~= bitfield@);
    }
    let digest = blake2b_256(data.as_slice());
    let mut message: Vec<u8> = vec![0x6au8, 0x61, 0x6d, 0x5f, 0x61, 0x76, 0x61, 0x69, 0x6c, 0x61, 0x62, 0x6c, 0x65];
    assert(message@ =~= assurance_context());
    let mut k: usize = 0;
    while k < 32
        invariant
            k <= 32,
            digest@.len() == 32,
            message@ == assurance_context() + digest@.subrange(0, k as int),
        decreases 32 - k,
    {
        message.push(digest[k]);
        proof {
            assert(digest@.subrange(0, k + 1) =~= digest@.subrange(0, k as int).push(digest@[k as int]));
        }
        k = k + 1;
    }
    proof {
        assert(digest@.subrange(0, 32) =~= digest@);
    }
    message
}

/// An Ed25519 signing keypair, held as its 32-byte secret seed from which the
/// expanded secret and the public key are derived.
pub struct Ed25519Keypair {
    seed: [u8; 32],
}

impl View for Ed25519Keypair {
    type V = Seq<u8>;

    /// The secret seed.
    closed spec fn view(&self) -> Seq<u8> {
        self.seed@
    }
}

impl Ed25519Keypair {
    /// Generate a new random keypair.
    pub fn generate() -> (keypair: Self)
        ensures
            keypair@.len() == 32,
    {
        let seed = dalek_random_seed();
        Self::from_seed(&seed)
    }

    /// Create a keypair from a 32-byte secret seed.
    pub fn from_seed(seed: &[u8; 32]) -> (keypair: Self)
        ensures
            keypair@ == seed@,
    {
        Ed25519Keypair { seed: *seed }
    }

    /// Get the public key.
    pub fn public_key(&self) -> (public_key: Ed25519PublicKey)
        ensures
            public_key.0@ == ed25519_public_key(self@),
    {
        Ed25519PublicKey(dalek_public_key(&self.seed))
    }

    /// Sign a message.
    pub fn sign(&self, message: &[u8]) -> (signature: Ed25519Signature)
        ensures
            signature.0@ == ed25519_signature(self@, message@),
    {
        Ed25519Signature(dalek_sign(&self.seed, message))
    }
}

/// Verify an Ed25519 signature.
///
/// Returns `true` if the signature is valid for the given message and public key;
/// in particular a signature made by a keypair verifies under that keypair's public key.
pub fn ed25519_verify(public_key: &Ed25519PublicKey, message: &[u8], signature: &Ed25519Signature) -> (valid: bool)
    ensures
        valid == ed25519_accepts(public_key.0@, message@, signature.0@),
        signed_by_key_of(public_key.0@, message@, signature.0@) ==> valid,
{
    dalek_verify(&public_key.0, message, &signature.0)
}

/// Keypairs made from the same seed have the same public key and sign every
/// message identically.
pub proof fn lemma_keypair_deterministic(a: Ed25519Keypair, b: Ed25519Keypair, message: Seq<u8>)
    requires
        a@ == b@,
    ensures
        ed25519_public_key(a@) == ed25519_public_key(b@),
        ed25519_signature(a@, message) == ed25519_signature(b@, message),
{
}

/// A signature that a keypair makes on a message verifies under the keypair's
/// public key, for every message.
pub proof fn lemma_own_signature_is_signed_by_key(keypair: Ed25519Keypair, message: Seq<u8>)
    ensures
        signed_by_key_of(
            ed25519_public_key(keypair@),
            message,
            ed25519_signature(keypair@, message),
        ),
{
    assert(keypair@.len() == 32);
    let seed = keypair@;
    assert(ed25519_public_key(seed) == ed25519_public_key(keypair@));
}

} // verus!
