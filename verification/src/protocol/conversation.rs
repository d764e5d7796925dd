//! Conversation protocol: Vuvuzela's Algorithm 1 (send) and Algorithm 2 (receive).
//!
//! Algorithm 1 (Send): A client computes a dead drop ID from the shared secret
//! with their partner, encrypts the message, and places it into the dead drop
//! store.
//!
//! Algorithm 2 (Receive): A client computes the same dead drop ID, retrieves
//! the partner's message from the dead drop store, and decrypts it.
use crate::crypto::{
    decrypt_message, decrypted_message, derive_dead_drop_id, encrypt_message, encrypted_form,
    kept_len, round_dead_drop, CryptoError,
};
use crate::dead_drop::{after_exchange, exchange_answer, result_view, DeadDropStore, ExchangeRequest, ExchangeResult};
use crate::onion::OnionError;
use crate::primitives::TAG_LEN;
use crate::types::{all_zero, DeadDropId, EncryptedMessage, Keypair, PublicKey, RoundNumber, SharedSecret, MESSAGE_SIZE};
use crate::x25519::{derive_shared_secret, pair_secret};
use vstd::prelude::*;

verus! {

/// Errors from conversation operations.
#[derive(Clone, Copy, Debug, PartialEq, Eq)]
pub enum ConversationError {
    NoPartner,
    DecryptionFailed,
    OnionError(OnionError),
    CryptoError(CryptoError),
}

/// A result holding bytes, taken by the bytes' view.
pub open spec fn bytes_result<E>(r: Result<Vec<u8>, E>) -> Result<Seq<u8>, E> {
    match r {
        Ok(v) => Ok(v@),
        Err(e) => Err(e),
    }
}

/// What decrypting a partner's message gives in a conversation.
pub open spec fn opened_message(secret: Seq<u8>, round: u64, data: Seq<u8>) -> Result<Seq<u8>, ConversationError> {
    match decrypted_message(secret, round, data) {
        Ok(m) => Ok(m),
        Err(e) => Err(ConversationError::CryptoError(e)),
    }
}

/// What `receive` gives from a store: the partner's decrypted message, or
/// `NoPartner` where the dead drop is unaccessed or holds an all-zero message.
pub open spec fn received(store: Map<Seq<u8>, Seq<u8>>, secret: Seq<u8>, round: u64) -> Result<
    Seq<u8>,
    ConversationError,
> {
    match exchange_answer(store, round_dead_drop(secret, round)) {
        Some(p) => if all_zero(p) {
            Err(ConversationError::NoPartner)
        } else {
            opened_message(secret, round, p)
        },
        None => Err(ConversationError::NoPartner),
    }
}

/// What a partner who encrypted `plaintext` in a round is read as: the
/// plaintext, cut to what a padded payload holds.
pub open spec fn delivered(plaintext: Seq<u8>) -> Seq<u8> {
    plaintext.take(kept_len(plaintext) as int)
}

/// A conversation between two clients.
/// Each client holds their own keypair and their partner's public key.
pub struct Conversation {
    /// This client's keypair.
    pub my_keypair: Keypair,
    /// The partner's public key.
    pub partner_pub: PublicKey,
    /// The shared secret derived from both public keys.
    pub shared_secret: SharedSecret,
    /// Server public keys for onion wrapping (in chain order).
    pub server_pks: Vec<PublicKey>,
}

impl Conversation {
    /// Create a new conversation between two clients.
    /// Both clients must call this with the same round number to derive the
    /// same shared secret.
    pub fn new(my_keypair: Keypair, partner_pub: PublicKey, round: u64) -> (r: Self)
        ensures
            r.my_keypair == my_keypair,
            r.partner_pub == partner_pub,
            r.shared_secret@ == pair_secret(my_keypair.public@, partner_pub@, round),
            r.server_pks@.len() == 0,
    {
        let shared_secret = derive_shared_secret(&my_keypair.public, &partner_pub, round);
        Conversation { my_keypair, partner_pub, shared_secret, server_pks: Vec::new() }
    }

    /// Set the server public keys for onion wrapping.
    pub fn set_servers(&mut self, server_pks: Vec<PublicKey>)
        ensures
            final(self).server_pks == server_pks,
            final(self).my_keypair == old(self).my_keypair,
            final(self).partner_pub == old(self).partner_pub,
            final(self).shared_secret == old(self).shared_secret,
    {
        self.server_pks = server_pks;
    }

    /// Algorithm 1: Send a message to the partner.
    ///
    /// 1. Compute the dead drop ID from the shared secret and round number.
    /// 2. Encrypt the message with the shared secret.
    /// 3. Place the encrypted message into the dead drop store, which answers
    ///    with the partner's message if the partner came first.
    pub fn send(&self, round: RoundNumber, plaintext: &[u8], store: &mut DeadDropStore) -> (r: Result<
        ExchangeResult,
        ConversationError,
    >)
        requires
            old(store).wf(),
        ensures
            final(store).wf(),
            final(store)@ == after_exchange(
                old(store)@,
                round_dead_drop(self.shared_secret@, round.0),
                encrypted_form(self.shared_secret@, round.0, plaintext@),
            ),
            final(store)@[round_dead_drop(self.shared_secret@, round.0)].len() == MESSAGE_SIZE + TAG_LEN,
            final(store).ids() == if old(store)@.contains_key(round_dead_drop(self.shared_secret@, round.0)) {
                old(store).ids()
            } else {
                old(store).ids().push(round_dead_drop(self.shared_secret@, round.0))
            },
            r matches Ok(res) && result_view(res) == exchange_answer(
                old(store)@,
                round_dead_drop(self.shared_secret@, round.0),
            ),
    {
        // Step 1: Compute dead drop ID
        let dead_drop_id = DeadDropId(derive_dead_drop_id(&self.shared_secret, round.0));
        // Step 2: Encrypt the message
        let encrypted = match encrypt_message(&self.shared_secret, round.0, plaintext) {
            Ok(m) => m,
            Err(e) => {
                return Err(ConversationError::CryptoError(e));
            },
        };
        // Step 3: Place the encrypted message in the dead drop
        let request = ExchangeRequest { dead_drop_id, payload: encrypted };
        let result = store.exchange(request);
        Ok(result)
    }

    /// Algorithm 2: Receive a message from the partner.
    ///
    /// 1. Compute the dead drop ID from the shared secret and round number.
    /// 2. Retrieve the partner's message from the dead drop store, without
    ///    disturbing the store.
    /// 3. Decrypt the message.
    pub fn receive(&self, round: RoundNumber, store: &mut DeadDropStore) -> (r: Result<
        Vec<u8>,
        ConversationError,
    >)
        requires
            old(store).wf(),
        ensures
            *final(store) == *old(store),
            bytes_result(r) == received(old(store)@, self.shared_secret@, round.0),
            forall|p: Seq<u8>|
                #![trigger encrypted_form(self.shared_secret@, round.0, p)]
                old(store)@.contains_key(round_dead_drop(self.shared_secret@, round.0))
                    && old(store)@[round_dead_drop(self.shared_secret@, round.0)] == encrypted_form(
                    self.shared_secret@,
                    round.0,
                    p,
                ) && old(store)@[round_dead_drop(self.shared_secret@, round.0)].len() >= TAG_LEN
                    && !all_zero(old(store)@[round_dead_drop(self.shared_secret@, round.0)])
                    ==> (r matches Ok(m) && m@ == delivered(p)),
    {
        // Step 1: Compute dead drop ID (same as partner's)
        let dead_drop_id = DeadDropId(derive_dead_drop_id(&self.shared_secret, round.0));
        // Step 2: Retrieve the partner's message without disturbing the store
        let result = store.retrieve(dead_drop_id);
        match result {
            ExchangeResult::Success(partner_payload) => {
                if partner_payload.is_empty() {
                    // Empty payload means no partner message yet
                    Err(ConversationError::NoPartner)
                } else {
                    match decrypt_message(&self.shared_secret, round.0, &partner_payload) {
                        Ok(plaintext) => Ok(plaintext),
                        Err(e) => Err(ConversationError::CryptoError(e)),
                    }
                }
            },
            ExchangeResult::NoPartner => Err(ConversationError::NoPartner),
        }
    }

    /// Prepare a message for sending (without placing in the store).
    /// Returns the exchange request with the encrypted payload.
    pub fn prepare_message(&self, round: RoundNumber, plaintext: &[u8]) -> (r: Result<
        ExchangeRequest,
        ConversationError,
    >)
        ensures
            r matches Ok(req) && req.dead_drop_id@ == round_dead_drop(self.shared_secret@, round.0)
                && req.payload@ == encrypted_form(self.shared_secret@, round.0, plaintext@)
                && req.payload@.len() == MESSAGE_SIZE + TAG_LEN,
    {
        let dead_drop_id = DeadDropId(derive_dead_drop_id(&self.shared_secret, round.0));
        let encrypted = match encrypt_message(&self.shared_secret, round.0, plaintext) {
            Ok(m) => m,
            Err(e) => {
                return Err(ConversationError::CryptoError(e));
            },
        };
        Ok(ExchangeRequest { dead_drop_id, payload: encrypted })
    }

    /// Decrypt a received message from a prepared exchange request.
    pub fn decrypt_received(&self, round: RoundNumber, payload: &EncryptedMessage) -> (r: Result<
        Vec<u8>,
        ConversationError,
    >)
        ensures
            bytes_result(r) == opened_message(self.shared_secret@, round.0, payload@),
            forall|p: Seq<u8>|
                payload@ == #[trigger] encrypted_form(self.shared_secret@, round.0, p) && payload@.len()
                    >= TAG_LEN ==> (r matches Ok(m) && m@ == delivered(p)),
    {
        match decrypt_message(&self.shared_secret, round.0, payload) {
            Ok(plaintext) => Ok(plaintext),
            Err(e) => Err(ConversationError::CryptoError(e)),
        }
    }
}

/// A pair of received messages, taken by their bytes.
pub open spec fn pair_result(r: Result<(Vec<u8>, Vec<u8>), ConversationError>) -> Result<
    (Seq<u8>, Seq<u8>),
    ConversationError,
> {
    match r {
        Ok(p) => Ok((p.0@, p.1@)),
        Err(e) => Err(e),
    }
}

/// A simulated round on `store`: Alice's message is exchanged at her dead
/// drop, then Bob's at his; the answer to Bob's exchange is opened with
/// Alice's secret, then Alice receives from the store. Gives the store
/// afterwards and what Alice and Bob received.
pub open spec fn conversation_round(
    store: Map<Seq<u8>, Seq<u8>>,
    alice_secret: Seq<u8>,
    bob_secret: Seq<u8>,
    round: u64,
    alice_msg: Seq<u8>,
    bob_msg: Seq<u8>,
) -> (Map<Seq<u8>, Seq<u8>>, Result<(Seq<u8>, Seq<u8>), ConversationError>) {
    let after_alice = after_exchange(
        store,
        round_dead_drop(alice_secret, round),
        encrypted_form(alice_secret, round, alice_msg),
    );
    let after_bob = after_exchange(
        after_alice,
        round_dead_drop(bob_secret, round),
        encrypted_form(bob_secret, round, bob_msg),
    );
    let outcome = match exchange_answer(after_alice, round_dead_drop(bob_secret, round)) {
        None => Err(ConversationError::NoPartner),
        Some(for_bob) => match opened_message(alice_secret, round, for_bob) {
            Err(e) => Err(e),
            Ok(bob_got) => match received(after_bob, alice_secret, round) {
                Err(e) => Err(e),
                Ok(alice_got) => Ok((alice_got, bob_got)),
            },
        },
    };
    (after_bob, outcome)
}

/// Simulate a full round of conversation between Alice and Bob.
/// In the real protocol, both clients send simultaneously and the server
/// pairs them up. In our simulation, we model this as:
/// 1. Alice sends (stores her message)
/// 2. Bob sends (gets Alice's message, stores his)
/// 3. Alice retrieves (gets Bob's message)
///
/// Each message arrives: where the two hold one shared secret, Alice reads
/// Bob's message and Bob reads Alice's (each cut to a padded payload), unless
/// Bob's ciphertext happens to be all zero bytes.
pub fn simulate_round(
    alice: &Conversation,
    bob: &Conversation,
    round: RoundNumber,
    alice_msg: &[u8],
    bob_msg: &[u8],
    store: &mut DeadDropStore,
) -> (r: Result<(Vec<u8>, Vec<u8>), ConversationError>)
    requires
        old(store).wf(),
    ensures
        final(store).wf(),
        final(store)@ == conversation_round(
            old(store)@,
            alice.shared_secret@,
            bob.shared_secret@,
            round.0,
            alice_msg@,
            bob_msg@,
        ).0,
        pair_result(r) == conversation_round(
            old(store)@,
            alice.shared_secret@,
            bob.shared_secret@,
            round.0,
            alice_msg@,
            bob_msg@,
        ).1,
        alice.shared_secret@ == bob.shared_secret@ && !all_zero(
            encrypted_form(bob.shared_secret@, round.0, bob_msg@),
        ) ==> (r matches Ok(pair) && pair.0@ == delivered(bob_msg@) && pair.1@ == delivered(alice_msg@)),
{
    // Alice sends
    let _ = match alice.send(round, alice_msg, store) {
        Ok(res) => res,
        Err(e) => {
            return Err(e);
        },
    };
    let ghost after_alice = store@;
    // Bob sends (this triggers the exchange: Bob gets Alice's message)
    let bob_result = match bob.send(round, bob_msg, store) {
        Ok(res) => res,
        Err(e) => {
            return Err(e);
        },
    };
    let bob_received = match bob_result {
        ExchangeResult::Success(payload) => {
            match alice.decrypt_received(round, &payload) {
                Ok(m) => m,
                Err(e) => {
                    return Err(e);
                },
            }
        },
        ExchangeResult::NoPartner => {
            return Err(ConversationError::NoPartner);
        },
    };
    // Alice retrieves Bob's message (stored by Bob's send)
    let alice_received = match alice.receive(round, store) {
        Ok(m) => m,
        Err(e) => {
            return Err(e);
        },
    };
    proof {
        let dd = round_dead_drop(bob.shared_secret@, round.0);
        if alice.shared_secret@ == bob.shared_secret@ {
            assert(after_alice.contains_key(dd));
            assert(after_alice[dd] == encrypted_form(alice.shared_secret@, round.0, alice_msg@));
        }
    }
    Ok((alice_received, bob_received))
}

} // verus!
