//! One round of the in-process demo: two clients in a conversation send a
//! message each through a chain of servers; the last server exchanges them in
//! its dead drop store and each client decrypts what it gets back.
use crate::crypto::{
    crypto_error_text, decrypt_message, decrypted_message, derive_dead_drop_id, encrypt_message, encrypted_form,
    round_dead_drop, CryptoError,
};
use crate::dead_drop::{after_exchange, exchange_answer, DeadDropStore, ExchangeRequest, ExchangeResult};
use crate::onion::{keys_view, onion_error_text, wrap_onion, wraps, OnionError};
use crate::primitives::{SEAL_LIMIT, TAG_LEN};
use crate::protocol::conversation::{delivered, Conversation};
use crate::server::{chain_peeled, peel_chain, ServerError};
use crate::types::{DeadDropId, EncryptedMessage, PublicKey, RoundNumber, MESSAGE_SIZE};
use vstd::prelude::*;

verus! {

/// A server of the demo: its public key and its dead drop store.
pub struct DemoServer {
    pub public_key: PublicKey,
    pub store: DeadDropStore,
}

/// One of the two demo clients.
#[derive(Clone, Copy, Debug, PartialEq, Eq)]
pub enum Party {
    Alice,
    Bob,
}

/// Why a demo round failed.
#[derive(Clone, Copy, Debug, PartialEq, Eq)]
pub enum DemoError {
    Crypto(CryptoError),
    Onion(OnionError),
    Server(ServerError),
    NoPartner(Party),
}

impl DemoError {
    /// The error's description.
    pub fn message(&self) -> (r: String)
        ensures
            *self matches DemoError::Crypto(e) ==> r@ == crypto_error_text(e),
            *self matches DemoError::Onion(e) ==> r@ == onion_error_text(e),
            *self is Server ==> r@ == "server error"@,
            *self == DemoError::NoPartner(Party::Alice) ==> r@ == "Alice: no partner found"@,
            *self == DemoError::NoPartner(Party::Bob) ==> r@ == "Bob: no partner found"@,
    {
        match self {
            DemoError::Crypto(e) => e.message(),
            DemoError::Onion(e) => e.message(),
            DemoError::Server(_) => "server error".to_string(),
            DemoError::NoPartner(Party::Alice) => "Alice: no partner found".to_string(),
            DemoError::NoPartner(Party::Bob) => "Bob: no partner found".to_string(),
        }
    }
}

/// The public keys of the demo servers, in chain order.
pub open spec fn demo_keys(servers: Seq<DemoServer>) -> Seq<Seq<u8>> {
    servers.map_values(|s: DemoServer| s.public_key@)
}

/// A pair of received messages, taken by their bytes.
pub open spec fn pair_view(r: Result<(Vec<u8>, Vec<u8>), DemoError>) -> Result<(Seq<u8>, Seq<u8>), DemoError> {
    match r {
        Ok(p) => Ok((p.0@, p.1@)),
        Err(e) => Err(e),
    }
}

/// A round at the last server, whose store is `store`: Alice's message is
/// exchanged at her dead drop, then Bob's at his; Bob decrypts the answer to
/// his exchange, then Alice decrypts what her dead drop holds. Gives the store
/// afterwards and what Alice and Bob received.
pub open spec fn round_outcome(
    store: Map<Seq<u8>, Seq<u8>>,
    alice_secret: Seq<u8>,
    bob_secret: Seq<u8>,
    round: u64,
    alice_msg: Seq<u8>,
    bob_msg: Seq<u8>,
) -> (Map<Seq<u8>, Seq<u8>>, Result<(Seq<u8>, Seq<u8>), DemoError>) {
    let alice_dd = round_dead_drop(alice_secret, round);
    let bob_dd = round_dead_drop(bob_secret, round);
    let after_alice = after_exchange(store, alice_dd, encrypted_form(alice_secret, round, alice_msg));
    let after_bob = after_exchange(after_alice, bob_dd, encrypted_form(bob_secret, round, bob_msg));
    let received = match exchange_answer(after_alice, bob_dd) {
        None => Err(DemoError::NoPartner(Party::Bob)),
        Some(for_bob) => match decrypted_message(bob_secret, round, for_bob) {
            Err(e) => Err(DemoError::Crypto(e)),
            Ok(bob_got) => match exchange_answer(after_bob, alice_dd) {
                None => Err(DemoError::NoPartner(Party::Alice)),
                Some(for_alice) => match decrypted_message(alice_secret, round, for_alice) {
                    Err(e) => Err(DemoError::Crypto(e)),
                    Ok(alice_got) => Ok((alice_got, bob_got)),
                },
            },
        },
    };
    (after_bob, received)
}

/// Every demo server's store is consistent.
pub open spec fn demo_wf(servers: Seq<DemoServer>) -> bool {
    forall|i: int| 0 <= i < servers.len() ==> (#[trigger] servers[i]).store.wf()
}

/// The message of a client, onion-wrapped through the servers and peeled by
/// them: the dead drop ID and the encrypted message it carries.
fn send_through(
    keys: &Vec<PublicKey>,
    conv: &Conversation,
    round: RoundNumber,
    msg: &[u8],
) -> (r: Result<([u8; 16], EncryptedMessage), DemoError>)
    ensures
        keys@.len() == 0 ==> r == Err::<([u8; 16], EncryptedMessage), DemoError>(
            DemoError::Onion(OnionError::InvalidLayer),
        ),
        r matches Err(e) ==> (keys@.len() == 0 && e == DemoError::Onion(OnionError::InvalidLayer)) || (
        keys@.len() > 0 && ((e matches DemoError::Onion(OnionError::RandomSourceFailed(_))) || (e == DemoError::Onion(
            OnionError::EncryptionFailed,
        ) && 16 + MESSAGE_SIZE + TAG_LEN + 56 * keys@.len() > SEAL_LIMIT))),
        r matches Ok(p) ==> p.0@ == round_dead_drop(conv.shared_secret@, round.0) && p.1@ == encrypted_form(
            conv.shared_secret@,
            round.0,
            msg@,
        ) && p.1@.len() == MESSAGE_SIZE + TAG_LEN,
{
    let encrypted = match encrypt_message(&conv.shared_secret, round.0, msg) {
        Ok(m) => m,
        Err(e) => {
            return Err(DemoError::Crypto(e));
        },
    };
    let dd = DeadDropId(derive_dead_drop_id(&conv.shared_secret, round.0));
    let onion = match wrap_onion(dd.0, &encrypted, keys.as_slice()) {
        Ok(o) => o,
        Err(e) => {
            return Err(DemoError::Onion(e));
        },
    };
    // Each server peels one layer; the last is left with the dead drop ID
    // followed by the encrypted message
    let data = match peel_chain(&onion, keys.as_slice()) {
        Ok(d) => d,
        Err(e) => {
            return Err(DemoError::Server(e));
        },
    };
    proof {
        assert(wraps(onion@, dd@, encrypted@, keys_view(keys@)));
        assert(chain_peeled(onion@, keys_view(keys@)) == Ok::<Seq<u8>, ServerError>(dd@ + encrypted@));
        assert(data@ == dd@ + encrypted@);
    }
    let dd_bytes = crate::bytes::array16_from(data.as_slice(), 0);
    let payload = EncryptedMessage { data: crate::bytes::copy_range(data.as_slice(), 16, data.len()) };
    proof {
        assert(dd_bytes@ =~= dd@);
        assert(payload@ =~= encrypted@);
    }
    Ok((dd_bytes, payload))
}

/// Run one round of the demo: Alice and Bob each send a message through the
/// server chain; the last server exchanges them in its dead drop store; Bob
/// decrypts the answer to his exchange and Alice what her dead drop holds.
/// Returns what Alice and Bob received, in that order.
pub fn run_round(
    servers: &mut [DemoServer],
    alice: &Conversation,
    bob: &Conversation,
    round: RoundNumber,
    alice_msg: &[u8],
    bob_msg: &[u8],
) -> (r: Result<(Vec<u8>, Vec<u8>), DemoError>)
    requires
        demo_wf(old(servers)@),
    ensures
        demo_wf(final(servers)@),
        final(servers)@.len() == old(servers)@.len(),
        demo_keys(final(servers)@) == demo_keys(old(servers)@),
        old(servers)@.len() == 0 ==> r == Err::<(Vec<u8>, Vec<u8>), DemoError>(
            DemoError::Onion(OnionError::InvalidLayer),
        ),
        r matches Err(DemoError::Onion(e)) ==> final(servers)@ == old(servers)@ && (old(servers)@.len() == 0
            || e is RandomSourceFailed || (e == OnionError::EncryptionFailed && 16 + MESSAGE_SIZE + TAG_LEN + 56
            * old(servers)@.len() > SEAL_LIMIT)),
        !(r matches Err(DemoError::Onion(_))) ==> {
            let outcome = round_outcome(
                old(servers)@.last().store@,
                alice.shared_secret@,
                bob.shared_secret@,
                round.0,
                alice_msg@,
                bob_msg@,
            );
            &&& pair_view(r) == outcome.1
            &&& final(servers)@.last().store@ == outcome.0
            &&& forall|i: int|
                0 <= i < old(servers)@.len() - 1 ==> #[trigger] final(servers)@[i] == old(servers)@[i]
        },
        alice.shared_secret@ == bob.shared_secret@ && !(r matches Err(DemoError::Onion(_))) ==> (r matches Ok(p)
            && p.0@ == delivered(bob_msg@) && p.1@ == delivered(alice_msg@)),
{
    let mut keys: Vec<PublicKey> = Vec::new();
    let mut i: usize = 0;
    while i < servers.len()
        invariant
            i <= servers@.len(),
            keys_view(keys@) == demo_keys(servers@).take(i as int),
        decreases servers@.len() - i,
    {
        let ghost before = keys@;
        keys.push(servers[i].public_key);
        proof {
            assert(keys_view(keys@) =~= keys_view(before).push(servers@[i as int].public_key@));
            assert(demo_keys(servers@).take(i + 1) =~= demo_keys(servers@).take(i as int).push(
                servers@[i as int].public_key@,
            ));
        }
        i = i + 1;
    }
    assert(demo_keys(servers@).take(servers@.len() as int) =~= demo_keys(servers@));
    // Alice sends, then Bob sends
    let (alice_dd, alice_payload) = match send_through(&keys, alice, round, alice_msg) {
        Ok(p) => p,
        Err(e) => {
            return Err(e);
        },
    };
    let (bob_dd, bob_payload) = match send_through(&keys, bob, round, bob_msg) {
        Ok(p) => p,
        Err(e) => {
            return Err(e);
        },
    };
    let ghost start = servers@;
    let last = servers.len() - 1;
    // The last server places both messages in its dead drop store
    servers[last].store.exchange(ExchangeRequest { dead_drop_id: DeadDropId(alice_dd), payload: alice_payload });
    let ghost after_alice = servers@[last as int].store@;
    let bob_result = servers[last].store.exchange(
        ExchangeRequest { dead_drop_id: DeadDropId(bob_dd), payload: bob_payload },
    );
    // Alice retrieves Bob's message
    let alice_result = servers[last].store.retrieve(DeadDropId(alice_dd));
    proof {
        assert(demo_keys(servers@) =~= demo_keys(start));
        assert forall|j: int| 0 <= j < servers@.len() implies (#[trigger] servers@[j]).store.wf() by {
            if j != last {
                assert(servers@[j] == start[j]);
            }
        }
    }
    proof {
        if alice.shared_secret@ == bob.shared_secret@ {
            assert(alice_dd@ == bob_dd@);
            assert(exchange_answer(after_alice, bob_dd@) == Some(encrypted_form(bob.shared_secret@, round.0, alice_msg@)));
        }
    }
    // Bob gets Alice's message from the exchange
    let bob_received = match bob_result {
        ExchangeResult::Success(payload) => {
            match decrypt_message(&bob.shared_secret, round.0, &payload) {
                Ok(m) => m,
                Err(e) => {
                    return Err(DemoError::Crypto(e));
                },
            }
        },
        ExchangeResult::NoPartner => {
            return Err(DemoError::NoPartner(Party::Bob));
        },
    };
    let alice_received = match alice_result {
        ExchangeResult::Success(payload) => {
            match decrypt_message(&alice.shared_secret, round.0, &payload) {
                Ok(m) => m,
                Err(e) => {
                    return Err(DemoError::Crypto(e));
                },
            }
        },
        ExchangeResult::NoPartner => {
            return Err(DemoError::NoPartner(Party::Alice));
        },
    };
    Ok((alice_received, bob_received))
}

} // verus!
