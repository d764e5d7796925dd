//! Core domain types: dead drop identifiers, round numbers, keys, and the
//! fixed-size encrypted message.
use crate::primitives::{random_bytes_16, DrawFailure};
use vstd::prelude::*;

verus! {

/// 128-bit dead drop identifier. Two clients in a conversation derive the same
/// ID from their shared secret and the round number. Random otherwise.
#[derive(Clone, Copy, Debug, PartialEq, Eq, Hash)]
pub struct DeadDropId(pub [u8; 16]);

impl DeadDropId {
    /// A dead drop ID of 16 random bytes; the random source's failure where
    /// the operating system's random source fails.
    pub fn random() -> (r: Result<Self, DrawFailure>) {
        match random_bytes_16() {
            Ok(bytes) => Ok(DeadDropId(bytes)),
            Err(failure) => Err(failure),
        }
    }
}

impl View for DeadDropId {
    type V = Seq<u8>;

    open spec fn view(&self) -> Seq<u8> {
        self.0@
    }
}

/// Monotonically increasing round counter. Each round has a fresh set of
/// dead drops that are wiped when the round ends.
#[derive(Clone, Copy, Debug, PartialEq, Eq, PartialOrd, Ord)]
pub struct RoundNumber(pub u64);

/// Curve25519 public key. Branded to prevent accidental use where a
/// shared secret or dead drop ID is expected.
#[derive(Clone, Copy, Debug, PartialEq, Eq)]
pub struct PublicKey(pub [u8; 32]);

impl View for PublicKey {
    type V = Seq<u8>;

    open spec fn view(&self) -> Seq<u8> {
        self.0@
    }
}

impl PublicKey {
    /// The key's 32 bytes.
    pub fn as_bytes(&self) -> (r: &[u8; 32])
        ensures
            *r == self.0,
    {
        &self.0
    }
}

/// Shared secret derived from two public keys. Branded to prevent accidental
/// use where a public key is expected.
#[derive(Clone, Copy, PartialEq, Eq)]
pub struct SharedSecret(pub [u8; 32]);

impl View for SharedSecret {
    type V = Seq<u8>;

    open spec fn view(&self) -> Seq<u8> {
        self.0@
    }
}

impl SharedSecret {
    /// The secret's 32 bytes.
    pub fn as_bytes(&self) -> (r: &[u8; 32])
        ensures
            *r == self.0,
    {
        &self.0
    }
}

/// Curve25519 keypair for a client or server. Only the public key is kept:
/// shared secrets are derived from public keys (see `x25519::derive_shared_secret`).
#[derive(Clone, Copy, Debug)]
pub struct Keypair {
    pub public: PublicKey,
}

impl Keypair {
    /// A keypair whose public key is freshly generated by the X25519
    /// generator; the random source's failure where the system random
    /// source fails.
    pub fn random() -> (r: Result<Self, DrawFailure>) {
        match crate::onion::generate_server_keypair() {
            Ok(public) => Ok(Keypair { public }),
            Err(failure) => Err(failure),
        }
    }
}

/// Fixed-size message payload. All messages are padded to this size so the
/// adversary cannot distinguish them by length.
pub const MESSAGE_SIZE: usize = 256;

/// A padded, encrypted message ready for placement in a dead drop.
#[derive(Clone, Debug)]
pub struct EncryptedMessage {
    pub data: Vec<u8>,
}

impl View for EncryptedMessage {
    type V = Seq<u8>;

    open spec fn view(&self) -> Seq<u8> {
        self.data@
    }
}

/// Whether every byte is zero.
pub open spec fn all_zero(s: Seq<u8>) -> bool {
    forall|i: int| 0 <= i < s.len() ==> s[i] == 0
}

impl EncryptedMessage {
    /// A message of `MESSAGE_SIZE` zero bytes.
    pub fn empty() -> (r: Self)
        ensures
            r@ == crate::bytes::zeros(MESSAGE_SIZE as nat),
    {
        let mut data: Vec<u8> = Vec::new();
        let mut i: usize = 0;
        while i < MESSAGE_SIZE
            invariant
                i <= MESSAGE_SIZE,
                data@ == Seq::new(i as nat, |j: int| 0u8),
            decreases MESSAGE_SIZE - i,
        {
            data.push(0u8);
            i = i + 1;
            assert(data@ =~= Seq::new(i as nat, |j: int| 0u8));
        }
        EncryptedMessage { data }
    }

    /// Whether every byte is zero (the message of a silent round or of noise).
    pub fn is_empty(&self) -> (r: bool)
        ensures
            r == all_zero(self@),
    {
        let mut i: usize = 0;
        while i < self.data.len()
            invariant
                i <= self.data@.len(),
                forall|j: int| 0 <= j < i ==> self.data@[j] == 0,
            decreases self.data@.len() - i,
        {
            if self.data[i] != 0 {
                return false;
            }
            i = i + 1;
        }
        true
    }

    /// A copy of this message.
    pub fn duplicate(&self) -> (r: Self)
        ensures
            r@ == self@,
    {
        EncryptedMessage { data: crate::bytes::copy_range(self.data.as_slice(), 0, self.data.len()) }
    }
}

/// An invitation sent during the dialing protocol. Contains the sender's
/// public key, a nonce, and a MAC binding sender and recipient.
#[derive(Clone, Copy, Debug)]
pub struct Invitation {
    pub sender_pub: PublicKey,
    pub nonce: [u8; 16],
    pub mac: [u8; 32],
}

} // verus!
