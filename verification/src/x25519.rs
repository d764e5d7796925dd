//! Shared secret derivation for Vuvuzela.
//!
//! Instead of static-static X25519 Diffie-Hellman, the shared secret of two
//! parties is SHA-256(smaller_pub || larger_pub || round). Both parties derive
//! the same secret because they know each other's public keys.
use crate::bytes::{append_bytes, bytes_le, lemma_lex_antisymmetric, lemma_lex_total, lex_le, u64_le, u64_to_le_bytes};
use crate::crypto::round_dead_drop;
use crate::primitives::{sha256, sha256_digest};
use crate::types::{PublicKey, SharedSecret};
use vstd::prelude::*;

verus! {

/// The two keys in lexicographic order, concatenated.
pub open spec fn ordered_keys(a: Seq<u8>, b: Seq<u8>) -> Seq<u8> {
    if lex_le(a, b) {
        a + b
    } else {
        b + a
    }
}

/// The shared secret of the holders of `a` and `b` in a round.
pub open spec fn pair_secret(a: Seq<u8>, b: Seq<u8>, round: u64) -> Seq<u8> {
    sha256_digest(ordered_keys(a, b) + u64_le(round))
}

/// Derive a shared secret from two public keys and a round number.
/// Both parties call this with the same inputs and get the same result.
pub fn derive_shared_secret(my_pub: &PublicKey, their_pub: &PublicKey, round: u64) -> (r: SharedSecret)
    ensures
        r@ == pair_secret(my_pub@, their_pub@, round),
{
    let mut input: Vec<u8> = Vec::new();
    // Sort the public keys so both parties get the same result regardless of order
    if bytes_le(my_pub.as_bytes(), their_pub.as_bytes()) {
        append_bytes(&mut input, my_pub.as_bytes());
        append_bytes(&mut input, their_pub.as_bytes());
    } else {
        append_bytes(&mut input, their_pub.as_bytes());
        append_bytes(&mut input, my_pub.as_bytes());
    }
    let round_bytes = u64_to_le_bytes(round);
    append_bytes(&mut input, round_bytes.as_slice());
    SharedSecret(sha256(input.as_slice()))
}

/// Derive a dead drop ID from a shared secret and round number.
pub fn derive_dead_drop_id(secret: &SharedSecret, round: u64) -> (r: [u8; 16])
    ensures
        r@ == round_dead_drop(secret@, round),
{
    crate::crypto::derive_dead_drop_id(secret, round)
}

/// Key agreement: the two parties of a conversation derive the same secret,
/// whichever of them computes it.
pub proof fn lemma_shared_secret_symmetric(a: PublicKey, b: PublicKey, round: u64)
    ensures
        pair_secret(a@, b@, round) == pair_secret(b@, a@, round),
{
    lemma_lex_total(a@, b@);
    if lex_le(a@, b@) && lex_le(b@, a@) {
        lemma_lex_antisymmetric(a@, b@);
    }
    assert(ordered_keys(a@, b@) == ordered_keys(b@, a@));
}

/// Both parties of a conversation find the same dead drop in every round.
pub proof fn lemma_dead_drop_agreement(a: PublicKey, b: PublicKey, round: u64)
    ensures
        round_dead_drop(pair_secret(a@, b@, round), round) == round_dead_drop(pair_secret(b@, a@, round), round),
{
    lemma_shared_secret_symmetric(a, b, round);
}

} // verus!
