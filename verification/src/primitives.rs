//! The cryptographic and random primitives this library takes from outside
//! crates: SHA-256 (`sha2`), AES-256-GCM and X25519 key generation (`ring`)
//! and randomness (`rand`).
//! Everything here is trusted: each contract is read off the crate's source or
//! documentation, not proved.
use rand::RngCore;
use sha2::{Digest, Sha256};
use crate::types::PublicKey;
use vstd::prelude::*;

verus! {

/// The SHA-256 digest of `data` (`sha2::Sha256`).
pub uninterp spec fn sha256_digest(data: Seq<u8>) -> Seq<u8>;

/// The AES-256-GCM sealing of `plaintext` under `key` and `nonce`, with empty
/// associated data: the ciphertext followed by the 16-byte tag (`ring::aead`).
pub uninterp spec fn aes_256_gcm_sealed(key: Seq<u8>, nonce: Seq<u8>, plaintext: Seq<u8>) -> Seq<u8>;

/// The AES-256-GCM opening of `ciphertext` (ciphertext followed by tag) under
/// `key` and `nonce`, with empty associated data: `None` where authentication fails.
pub uninterp spec fn aes_256_gcm_opened(key: Seq<u8>, nonce: Seq<u8>, ciphertext: Seq<u8>) -> Option<Seq<u8>>;

/// Plaintexts up to this length always seal: `ring`'s AES-GCM `MAX_IN_OUT_LEN`,
/// `(2^32 - 2) * 16` bytes (on targets whose `usize` is narrower, every slice
/// is shorter than that).
pub const SEAL_LIMIT: u64 = 68_719_476_704;

/// Length of the AES-GCM authentication tag.
pub const TAG_LEN: usize = 16;

#[verifier::external_type_specification]
#[verifier::external_body]
pub struct ExUnspecified(ring::error::Unspecified);

/// `sha2::Sha256::digest`: the 32-byte SHA-256 digest of `data`. Claimed: the
/// result is `sha256_digest(data)`, a function of the input alone.
#[verifier::external_body]
pub(crate) fn sha256(data: &[u8]) -> (r: [u8; 32])
    ensures
        r@ == sha256_digest(data@),
{
    let digest = Sha256::digest(data);
    let mut out = [0u8; 32];
    out.copy_from_slice(&digest);
    out
}

/// `ring::aead::LessSafeKey::seal_in_place_append_tag` with `AES_256_GCM`, the
/// given nonce and empty associated data, on a copy of `plaintext`
/// (`UnboundKey::new` and `Nonce::assume_unique_for_key` only turn the bytes
/// into ring's types). Claimed: a success holds `aes_256_gcm_sealed(..)`, which
/// is the plaintext's length plus the 16-byte tag; a 32-byte key never fails
/// `UnboundKey::new`, and sealing fails exactly above `MAX_IN_OUT_LEN`, so a
/// plaintext of at most `SEAL_LIMIT` bytes always seals and a longer one never
/// does.
#[verifier::external_body]
pub(crate) fn aes_256_gcm_seal(key: &[u8; 32], nonce: &[u8; 12], plaintext: &[u8]) -> (r: Result<
    Vec<u8>,
    ring::error::Unspecified,
>)
    ensures
        r matches Ok(c) ==> c@ == aes_256_gcm_sealed(key@, nonce@, plaintext@) && c@.len()
            == plaintext@.len() + TAG_LEN,
        plaintext@.len() <= SEAL_LIMIT <==> r is Ok,
{
    let unbound = ring::aead::UnboundKey::new(&ring::aead::AES_256_GCM, key)?;
    let sealing = ring::aead::LessSafeKey::new(unbound);
    let nonce = ring::aead::Nonce::assume_unique_for_key(*nonce);
    let mut in_out = plaintext.to_vec();
    sealing.seal_in_place_append_tag(nonce, ring::aead::Aad::empty(), &mut in_out)?;
    Ok(in_out)
}

/// `ring::aead::LessSafeKey::open_in_place` with `AES_256_GCM`, the given nonce
/// and empty associated data, on a copy of `ciphertext`. Claimed: the result is
/// `aes_256_gcm_opened(..)` (an error exactly where that is `None`), and, as an
/// AEAD guarantees, opening what `seal` produced under the same key and nonce
/// gives the plaintext back. Nothing is claimed of plaintexts longer than
/// `SEAL_LIMIT`, which ring neither seals nor opens.
#[verifier::external_body]
pub(crate) fn aes_256_gcm_open(key: &[u8; 32], nonce: &[u8; 12], ciphertext: &[u8]) -> (r: Result<
    Vec<u8>,
    ring::error::Unspecified,
>)
    ensures
        r is Ok <==> aes_256_gcm_opened(key@, nonce@, ciphertext@) is Some,
        r matches Ok(p) ==> aes_256_gcm_opened(key@, nonce@, ciphertext@) == Some(p@),
        r is Err ==> forall|p: Seq<u8>|
            p.len() <= SEAL_LIMIT ==> ciphertext@ != #[trigger] aes_256_gcm_sealed(key@, nonce@, p),
        r matches Ok(q) ==> forall|p: Seq<u8>|
            p.len() <= SEAL_LIMIT && ciphertext@ == #[trigger] aes_256_gcm_sealed(key@, nonce@, p) ==> q@ == p,
{
    let unbound = ring::aead::UnboundKey::new(&ring::aead::AES_256_GCM, key)?;
    let opening = ring::aead::LessSafeKey::new(unbound);
    let nonce = ring::aead::Nonce::assume_unique_for_key(*nonce);
    let mut in_out = ciphertext.to_vec();
    let plaintext = opening.open_in_place(nonce, ring::aead::Aad::empty(), &mut in_out)?;
    Ok(plaintext.to_vec())
}

/// Evidence that the operating system's random source reported an error.
/// Its field is private, so no code outside this module can make one: a
/// value of it comes only from a call into the random source that failed,
/// and an error that carries it reports such a failure and nothing else.
#[derive(Clone, Copy, Debug, PartialEq, Eq)]
pub struct DrawFailure {
    reported: (),
}

/// `rand::rngs::OsRng::try_fill_bytes`: 16 bytes from the operating system's
/// random source, or a `DrawFailure` where that source reports an error.
/// Nothing is claimed of the bytes, nor of when the source fails.
#[verifier::external_body]
pub(crate) fn random_bytes_16() -> (r: Result<[u8; 16], DrawFailure>) {
    let mut buf = [0u8; 16];
    match rand::rngs::OsRng.try_fill_bytes(&mut buf) {
        Ok(()) => Ok(buf),
        Err(_) => Err(DrawFailure { reported: () }),
    }
}

/// `rand::rngs::OsRng::try_fill_bytes` on eight bytes, read as a little-endian
/// `u64`, or a `DrawFailure` where the operating system's random source
/// reports an error. Nothing is claimed of the number, nor of when the source
/// fails.
#[verifier::external_body]
pub(crate) fn random_u64() -> (r: Result<u64, DrawFailure>) {
    let mut buf = [0u8; 8];
    match rand::rngs::OsRng.try_fill_bytes(&mut buf) {
        Ok(()) => Ok(u64::from_le_bytes(buf)),
        Err(_) => Err(DrawFailure { reported: () }),
    }
}

/// Generate a server keypair (public key only): `ring`'s X25519
/// `EphemeralPrivateKey::generate` with `SystemRandom`, then
/// `compute_public_key`, as a 32-byte array. A `DrawFailure` where ring
/// reports an error, which it does only when the system random source fails.
/// Nothing is claimed of the key. The server only needs its public key for
/// peeling onion layers, since the shared secret is derived from public keys
/// only.
#[verifier::external_body]
pub fn generate_server_keypair() -> (r: Result<PublicKey, DrawFailure>) {
    let rng = ring::rand::SystemRandom::new();
    let secret = match ring::agreement::EphemeralPrivateKey::generate(&ring::agreement::X25519, &rng) {
        Ok(k) => k,
        Err(_) => return Err(DrawFailure { reported: () }),
    };
    let public = match secret.compute_public_key() {
        Ok(p) => p,
        Err(_) => return Err(DrawFailure { reported: () }),
    };
    match public.as_ref().try_into() {
        Ok(bytes) => Ok(PublicKey(bytes)),
        Err(_) => Err(DrawFailure { reported: () }),
    }
}

} // verus!
