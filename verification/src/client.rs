//! The Vuvuzela client: dialing, the current conversation, and cover traffic.
use crate::bytes::{to_vec, zeros};
use crate::config::ClientConfig;
use crate::crypto::{
    crypto_error_text, decrypt_message, decrypted_message, derive_dead_drop_id, encrypt_message,
    encrypted_form, kept_len, round_dead_drop,
};
use crate::dead_drop::{index_drop, indexed_dead_drop, random_index, DeadDropStore};
use crate::onion::{keys_view, wrap_onion_with_keys, wraps, OnionRequest};
use crate::primitives::{DrawFailure, SEAL_LIMIT, TAG_LEN};
use crate::protocol::dialing::{is_waiting, DialingError, DialingProtocol, DialingState};
use crate::types::{DeadDropId, EncryptedMessage, Keypair, PublicKey, RoundNumber, SharedSecret, MESSAGE_SIZE};
use crate::x25519::pair_secret;
use vstd::prelude::*;

verus! {

/// Errors from client operations.
#[derive(Clone, Debug, PartialEq, Eq)]
pub enum ClientError {
    Dialing(DialingError),
    Crypto(String),
    NotInConversation,
    AlreadyInConversation,
    Network(String),
}

/// Represents an active conversation with a peer.
pub struct Conversation {
    /// The peer's public key.
    pub peer_pk: PublicKey,
    /// Shared secret with the peer.
    pub shared_secret: SharedSecret,
    /// Current round number within the conversation.
    pub current_round: RoundNumber,
    /// Dead drop ID for the current round.
    pub dead_drop_id: DeadDropId,
    /// Pending outgoing message (if any).
    pub pending_message: Option<Vec<u8>>,
}

/// What decrypting a peer's message gives a client.
pub open spec fn client_decrypted(r: Result<Vec<u8>, ClientError>, secret: Seq<u8>, round: u64, data: Seq<u8>) -> bool {
    match decrypted_message(secret, round, data) {
        Ok(p) => r matches Ok(v) && v@ == p,
        Err(e) => r matches Err(ClientError::Crypto(text)) && text@ == crypto_error_text(e),
    }
}

impl Conversation {
    pub fn new(peer_pk: PublicKey, shared_secret: SharedSecret, start_round: RoundNumber) -> (r: Self)
        ensures
            r.peer_pk == peer_pk,
            r.shared_secret == shared_secret,
            r.current_round == start_round,
            r.dead_drop_id@ == round_dead_drop(shared_secret@, start_round.0),
            r.pending_message is None,
    {
        let dead_drop_id = DeadDropId(derive_dead_drop_id(&shared_secret, start_round.0));
        Conversation { peer_pk, shared_secret, current_round: start_round, dead_drop_id, pending_message: None }
    }

    /// Advance to the next round: derive new dead drop ID.
    pub fn advance_round(&mut self)
        requires
            old(self).current_round.0 < u64::MAX,
        ensures
            final(self).current_round.0 == old(self).current_round.0 + 1,
            final(self).dead_drop_id@ == round_dead_drop(old(self).shared_secret@, final(self).current_round.0),
            final(self).peer_pk == old(self).peer_pk,
            final(self).shared_secret == old(self).shared_secret,
            final(self).pending_message == old(self).pending_message,
    {
        self.current_round = RoundNumber(self.current_round.0 + 1);
        self.dead_drop_id = DeadDropId(derive_dead_drop_id(&self.shared_secret, self.current_round.0));
    }

    /// Encrypt a message for the peer.
    pub fn encrypt_message(&self, plaintext: &[u8]) -> (r: Result<EncryptedMessage, ClientError>)
        ensures
            r matches Ok(m) && m@ == encrypted_form(self.shared_secret@, self.current_round.0, plaintext@)
                && m@.len() == MESSAGE_SIZE + TAG_LEN,
    {
        match encrypt_message(&self.shared_secret, self.current_round.0, plaintext) {
            Ok(m) => Ok(m),
            Err(e) => Err(ClientError::Crypto(e.message())),
        }
    }

    /// Decrypt a message from the peer.
    pub fn decrypt_message(&self, msg: &EncryptedMessage) -> (r: Result<Vec<u8>, ClientError>)
        ensures
            client_decrypted(r, self.shared_secret@, self.current_round.0, msg@),
            forall|p: Seq<u8>|
                msg@ == #[trigger] encrypted_form(self.shared_secret@, self.current_round.0, p)
                    && msg@.len() >= TAG_LEN ==> (r matches Ok(v) && v@ == p.take(kept_len(p) as int)),
    {
        match decrypt_message(&self.shared_secret, self.current_round.0, msg) {
            Ok(p) => Ok(p),
            Err(e) => Err(ClientError::Crypto(e.message())),
        }
    }
}

/// The configured server keys a client uses: those entries of the chain that
/// are exactly 32 bytes long, in order.
pub open spec fn chain_keys(chain: Seq<Seq<u8>>) -> Seq<Seq<u8>>
    decreases chain.len(),
{
    if chain.len() == 0 {
        Seq::empty()
    } else if chain.last().len() == 32 {
        chain_keys(chain.drop_last()).push(chain.last())
    } else {
        chain_keys(chain.drop_last())
    }
}

/// The byte strings of a list of byte vectors.
pub open spec fn vecs_view(v: Seq<Vec<u8>>) -> Seq<Seq<u8>> {
    v.map_values(|b: Vec<u8>| b@)
}

/// A cover onion addressed to the dead drop with index `idx`, among `num`
/// dead drops, carrying the empty message through the servers `pks`.
pub open spec fn cover_onion(req: Seq<(Seq<u8>, Seq<u8>)>, idx: u64, num: usize, pks: Seq<Seq<u8>>) -> bool {
    idx < num && wraps(req, index_drop(idx), zeros(MESSAGE_SIZE as nat), pks)
}

/// A cover onion to some dead drop among `num`.
pub open spec fn is_cover_onion(req: Seq<(Seq<u8>, Seq<u8>)>, num: usize, pks: Seq<Seq<u8>>) -> bool {
    exists|idx: u64| #[trigger] cover_onion(req, idx, num, pks)
}

/// The `j`-th pair of cover onions after the first `start` requests goes to
/// a single dead drop.
pub open spec fn cover_pair_at(reqs: Seq<OnionRequest>, start: int, j: int, num: usize, pks: Seq<Seq<u8>>) -> bool {
    exists|idx: u64|
        #[trigger] cover_onion(reqs[start + 2 * j]@, idx, num, pks) && cover_onion(
            reqs[start + 2 * j + 1]@,
            idx,
            num,
            pks,
        )
}

/// The cover onion for the dead drop with index `idx` among `num`, with the
/// ephemeral keys `ephs`, one per layer.
pub open spec fn cover_onion_with(
    req: Seq<(Seq<u8>, Seq<u8>)>,
    idx: u64,
    ephs: Seq<PublicKey>,
    num: usize,
    pks: Seq<Seq<u8>>,
) -> bool {
    &&& cover_onion(req, idx, num, pks)
    &&& keys_view(ephs) == req.map_values(|l: (Seq<u8>, Seq<u8>)| l.0)
}

/// Whether an onion of the empty message through `n` servers fits under the
/// sealing limit at every layer, so that no wrapping can fail.
pub open spec fn cover_fits(n: nat) -> bool {
    n > 0 && 16 + MESSAGE_SIZE + 56 * n <= SEAL_LIMIT
}

/// Cover traffic laid out as at most `n1` single cover onions, then at most
/// `n2` pairs of cover onions.
pub open spec fn cover_within(reqs: Seq<OnionRequest>, n1: int, n2: int, num: usize, pks: Seq<Seq<u8>>) -> bool {
    exists|singles: int, pairs: int|
        0 <= singles <= n1 && 0 <= pairs <= n2 && #[trigger] cover_layout(reqs, singles, pairs, num, pks)
}

/// Cover traffic laid out as `singles` single cover onions, then `pairs`
/// pairs of cover onions, each pair to a single dead drop.
pub open spec fn cover_layout(reqs: Seq<OnionRequest>, singles: int, pairs: int, num: usize, pks: Seq<Seq<u8>>) -> bool {
    &&& reqs.len() == singles + 2 * pairs
    &&& forall|i: int| 0 <= i < singles ==> is_cover_onion(#[trigger] reqs[i]@, num, pks)
    &&& forall|j: int| 0 <= j < pairs ==> #[trigger] cover_pair_at(reqs, singles, j, num, pks)
}

/// `n` freshly generated keys; the random source's failure where one cannot
/// be generated.
pub fn fresh_keys(n: usize) -> (r: Result<Vec<PublicKey>, DrawFailure>)
    ensures
        r matches Ok(v) ==> v@.len() == n,
        n == 0 ==> r is Ok,
{
    let mut keys: Vec<PublicKey> = Vec::new();
    let mut i: usize = 0;
    while i < n
        invariant
            i <= n,
            keys@.len() == i,
        decreases n - i,
    {
        match crate::onion::generate_server_keypair() {
            Ok(pk) => keys.push(pk),
            Err(failure) => {
                return Err(failure);
            },
        }
        i = i + 1;
    }
    Ok(keys)
}

/// Vuvuzela client: manages dialing, conversations, and cover traffic.
pub struct Client {
    /// Client's keypair.
    pub keypair: Keypair,
    /// Configuration.
    pub config: ClientConfig,
    /// Current conversation (if any).
    pub conversation: Option<Conversation>,
    /// Dialing protocol state.
    pub dialing: DialingProtocol,
    /// Number of dead drops.
    pub num_dead_drops: usize,
    /// Server public keys for onion wrapping.
    pub server_pks: Vec<PublicKey>,
    /// Current round number.
    pub current_round: RoundNumber,
    /// Dead drop store for the current round.
    pub dead_drop_store: DeadDropStore,
}

impl Client {
    /// The client's internal consistency.
    pub open spec fn wf(&self) -> bool {
        &&& self.dead_drop_store.wf()
        &&& self.dialing.num_dead_drops == self.num_dead_drops
        &&& self.dialing.keypair == self.keypair
        &&& is_waiting(self.dialing.state) ==> self.dialing.start_round.0 <= self.current_round.0
    }

    /// Create a new client from a keypair and config.
    pub fn new(keypair: Keypair, config: ClientConfig) -> (r: Self)
        ensures
            r.wf(),
            r.keypair == keypair,
            r.num_dead_drops == config.num_dead_drops,
            r.dialing.state is Idle,
            r.dialing.timeout_rounds == 100,
            keys_view(r.server_pks@) == chain_keys(vecs_view(config.server_chain@)),
            r.conversation is None,
            r.current_round.0 == 0,
            r.dead_drop_store@ == Map::<Seq<u8>, Seq<u8>>::empty(),
            r.dead_drop_store.ids() == Seq::<Seq<u8>>::empty(),
            r.config == config,
    {
        let num_dead_drops = config.num_dead_drops;
        let dialing = DialingProtocol::new(keypair, num_dead_drops);
        // Parse server public keys from config
        let mut server_pks: Vec<PublicKey> = Vec::new();
        let mut i: usize = 0;
        while i < config.server_chain.len()
            invariant
                i <= config.server_chain@.len(),
                keys_view(server_pks@) == chain_keys(vecs_view(config.server_chain@).take(i as int)),
            decreases config.server_chain@.len() - i,
        {
            let bytes = &config.server_chain[i];
            proof {
                let all = vecs_view(config.server_chain@);
                assert(all.take(i + 1).drop_last() =~= all.take(i as int));
                assert(all.take(i + 1).last() == bytes@);
            }
            if bytes.len() == 32 {
                let arr = crate::bytes::array32_from(bytes.as_slice(), 0);
                proof {
                    assert(arr@ =~= bytes@);
                }
                server_pks.push(PublicKey(arr));
                proof {
                    assert(keys_view(server_pks@) =~= keys_view(server_pks@.drop_last()).push(arr@));
                }
            }
            i = i + 1;
        }
        proof {
            assert(vecs_view(config.server_chain@).take(config.server_chain@.len() as int) =~= vecs_view(
                config.server_chain@,
            ));
        }
        Client {
            keypair,
            config,
            conversation: None,
            dialing,
            num_dead_drops,
            server_pks,
            current_round: RoundNumber(0),
            dead_drop_store: DeadDropStore::new(),
        }
    }

    /// Create a new client with default config.
    pub fn new_with_defaults(keypair: Keypair) -> (r: Self)
        ensures
            r.wf(),
            r.keypair == keypair,
            r.num_dead_drops == 100_000,
            r.dialing.state is Idle,
            r.dialing.timeout_rounds == 100,
            r.server_pks@.len() == 0,
            r.conversation is None,
            r.current_round.0 == 0,
            r.dead_drop_store@ == Map::<Seq<u8>, Seq<u8>>::empty(),
            r.dead_drop_store.ids() == Seq::<Seq<u8>>::empty(),
            r.config.public_key@ == crate::bytes::zeros(32),
            r.config.server_chain@.len() == 0,
            r.config.num_dead_drops == 100_000,
            r.config.dialing_timeout_rounds == 100,
            r.config.max_conversation_rounds == 1000,
    {
        let config = ClientConfig::default();
        proof {
            assert(vecs_view(config.server_chain@) =~= Seq::<Seq<u8>>::empty());
        }
        Self::new(keypair, config)
    }

    /// Start dialing a peer. Not possible while in a conversation.
    pub fn dial(&mut self, peer_pk: &PublicKey) -> (r: Result<usize, ClientError>)
        requires
            old(self).wf(),
            old(self).num_dead_drops > 0,
        ensures
            final(self).wf(),
            final(self).conversation is Some ==> r == Err::<usize, ClientError>(
                ClientError::AlreadyInConversation,
            ),
            old(self).conversation is Some ==> *final(self) == *old(self),
            old(self).conversation is None ==> r == Ok::<usize, ClientError>(
                crate::protocol::dialing::invitation_index(old(self).keypair.public@, old(self).num_dead_drops),
            ) && final(self).dialing.state == (DialingState::WaitingForResponse {
                our_dead_drop_idx: crate::protocol::dialing::invitation_index(
                    old(self).keypair.public@,
                    old(self).num_dead_drops,
                ),
                peer_pk: *peer_pk,
            }) && final(self).dialing.start_round == old(self).current_round
                && final(self).current_round == old(self).current_round,
    {
        if self.conversation.is_some() {
            return Err(ClientError::AlreadyInConversation);
        }
        match self.dialing.dial(peer_pk, self.current_round) {
            Ok(idx) => Ok(idx),
            Err(e) => Err(ClientError::Dialing(e)),
        }
    }

    /// Start listening for incoming invitations.
    pub fn listen(&mut self) -> (r: usize)
        requires
            old(self).wf(),
            old(self).num_dead_drops > 0,
        ensures
            final(self).wf(),
            r == crate::protocol::dialing::invitation_index(old(self).keypair.public@, old(self).num_dead_drops),
            r < old(self).num_dead_drops,
            final(self).dialing.state == (DialingState::WaitingForInvitation { dead_drop_idx: r }),
            final(self).conversation == old(self).conversation,
            final(self).current_round == old(self).current_round,
    {
        self.dialing.listen()
    }

    /// Process the current round. Unless dialing is idle, the dialing
    /// protocol takes the round first: its errors are the round's errors
    /// (a finished dial has no invitation left to look for), and a completed
    /// dial starts the conversation in this round. With dialing idle there is
    /// no invitation to look for, which is no error for the client, and a
    /// conversation in progress moves on to the next round.
    pub fn process_round(&mut self) -> (r: Result<Option<Vec<u8>>, ClientError>)
        requires
            old(self).wf(),
            old(self).current_round.0 < u64::MAX,
            old(self).conversation matches Some(c) ==> c.current_round.0 < u64::MAX,
        ensures
            final(self).wf(),
            r matches Ok(m) ==> m is None,
            final(self).keypair == old(self).keypair,
            final(self).config == old(self).config,
            final(self).num_dead_drops == old(self).num_dead_drops,
            final(self).server_pks == old(self).server_pks,
            final(self).dead_drop_store == old(self).dead_drop_store,
            final(self).dialing.keypair == old(self).dialing.keypair,
            final(self).dialing.num_dead_drops == old(self).dialing.num_dead_drops,
            final(self).dialing.start_round == old(self).dialing.start_round,
            final(self).dialing.timeout_rounds == old(self).dialing.timeout_rounds,
            old(self).dialing.state is Idle ==> (r is Ok && final(self).dialing == old(self).dialing),
            old(self).dialing.state is Complete ==> r == Err::<Option<Vec<u8>>, ClientError>(
                ClientError::Dialing(DialingError::NoInvitation),
            ) && *final(self) == *old(self),
            old(self).dialing.state is TimedOut ==> r == Err::<Option<Vec<u8>>, ClientError>(
                ClientError::Dialing(DialingError::Timeout),
            ) && *final(self) == *old(self),
            is_waiting(old(self).dialing.state) && old(self).current_round.0 - old(self).dialing.start_round.0
                >= old(self).dialing.timeout_rounds ==> r == Err::<Option<Vec<u8>>, ClientError>(
                ClientError::Dialing(DialingError::Timeout),
            ) && final(self).dialing.state is TimedOut && final(self).conversation == old(self).conversation
                && final(self).current_round == old(self).current_round,
            old(self).dialing.state is WaitingForInvitation && old(self).current_round.0
                - old(self).dialing.start_round.0 < old(self).dialing.timeout_rounds ==> r is Ok
                && final(self).dialing.state == old(self).dialing.state,
            old(self).dialing.state matches DialingState::WaitingForResponse { peer_pk, .. } ==> (
            old(self).current_round.0 - old(self).dialing.start_round.0 < old(self).dialing.timeout_rounds
                ==> (r is Ok && (final(self).conversation matches Some(c) && c.peer_pk == peer_pk
                && c.shared_secret@ == pair_secret(old(self).keypair.public@, peer_pk@, old(self).current_round.0)
                && c.current_round == old(self).current_round) && final(self).current_round
                == old(self).current_round)),
            (r is Ok && !(old(self).dialing.state is WaitingForResponse && final(self).dialing.state is Complete))
                ==> match old(self).conversation {
                Some(c) => final(self).conversation matches Some(nc) && nc.current_round.0
                    == c.current_round.0 + 1 && nc.shared_secret == c.shared_secret && nc.peer_pk
                    == c.peer_pk && nc.dead_drop_id@ == round_dead_drop(c.shared_secret@, nc.current_round.0)
                    && final(self).current_round.0 == old(self).current_round.0 + 1,
                None => final(self).conversation is None && final(self).current_round
                    == old(self).current_round,
            },
    {
        // Check dialing state: unless idle, dialing takes the round
        let dialing_active = match self.dialing.state {
            DialingState::Idle => false,
            _ => true,
        };
        if dialing_active {
            match self.dialing.process_round(self.current_round, &[]) {
                Err(e) => {
                    return Err(ClientError::Dialing(e));
                },
                Ok(Some((peer_pk, shared_secret))) => {
                    // Dialing complete, start conversation
                    let conv = Conversation::new(peer_pk, shared_secret, self.current_round);
                    self.conversation = Some(conv);
                    return Ok(None);
                },
                Ok(None) => {},
            }
        }
        // If in a conversation, move the conversation to the next round
        match &mut self.conversation {
            Some(conv) => {
                conv.advance_round();
                self.current_round = RoundNumber(self.current_round.0 + 1);
            },
            None => {},
        }
        Ok(None)
    }

    /// Send a message in the current conversation: it becomes the pending message.
    pub fn send_message(&mut self, plaintext: &[u8]) -> (r: Result<(), ClientError>)
        requires
            old(self).wf(),
        ensures
            final(self).wf(),
            old(self).conversation is None ==> r == Err::<(), ClientError>(ClientError::NotInConversation)
                && *final(self) == *old(self),
            old(self).conversation matches Some(c) ==> (r is Ok && (final(self).conversation matches Some(nc)
                && nc.current_round == c.current_round && nc.shared_secret == c.shared_secret
                && nc.peer_pk == c.peer_pk && (nc.pending_message matches Some(m) && m@ == plaintext@))),
    {
        match &mut self.conversation {
            None => Err(ClientError::NotInConversation),
            Some(conv) => {
                conv.pending_message = Some(to_vec(plaintext));
                Ok(())
            },
        }
    }

    /// Receive a message from the current conversation.
    pub fn receive_message(&mut self, msg: &EncryptedMessage) -> (r: Result<Vec<u8>, ClientError>)
        ensures
            *final(self) == *old(self),
            old(self).conversation is None ==> r == Err::<Vec<u8>, ClientError>(
                ClientError::NotInConversation,
            ),
            old(self).conversation matches Some(c) ==> client_decrypted(
                r,
                c.shared_secret@,
                c.current_round.0,
                msg@,
            ),
    {
        match &self.conversation {
            None => Err(ClientError::NotInConversation),
            Some(conv) => conv.decrypt_message(msg),
        }
    }

    /// Cover traffic for drawn values: an onion of the empty message to the
    /// dead drop of each single index, then two onions to the dead drop of each
    /// pair index, the `i`-th onion wrapped under the ephemeral keys `ephs[i]`.
    /// An onion that cannot be wrapped is left out (a pair as a whole); with no
    /// server keys there are none.
    #[verifier::spinoff_prover]
    pub fn cover_traffic_from(&self, singles: &[u64], pairs: &[u64], ephs: &[Vec<PublicKey>]) -> (r: Vec<
        OnionRequest,
    >)
        requires
            forall|i: int| 0 <= i < singles@.len() ==> #[trigger] singles@[i] < self.num_dead_drops,
            forall|j: int| 0 <= j < pairs@.len() ==> #[trigger] pairs@[j] < self.num_dead_drops,
            ephs@.len() == singles@.len() + 2 * pairs@.len(),
            forall|i: int| 0 <= i < ephs@.len() ==> (#[trigger] ephs@[i])@.len() == self.server_pks@.len(),
        ensures
            exists|a: int, b: int|
                0 <= a <= singles@.len() && 0 <= b <= pairs@.len() && #[trigger] cover_layout(
                    r@,
                    a,
                    b,
                    self.num_dead_drops,
                    keys_view(self.server_pks@),
                ),
            self.server_pks@.len() == 0 ==> r@.len() == 0,
            cover_fits(self.server_pks@.len()) ==> {
                &&& cover_layout(
                    r@,
                    singles@.len() as int,
                    pairs@.len() as int,
                    self.num_dead_drops,
                    keys_view(self.server_pks@),
                )
                &&& forall|i: int|
                    0 <= i < singles@.len() ==> cover_onion_with(
                        #[trigger] r@[i]@,
                        singles@[i],
                        ephs@[i]@,
                        self.num_dead_drops,
                        keys_view(self.server_pks@),
                    )
                &&& forall|j: int|
                    0 <= j < pairs@.len() ==> cover_onion_with(
                        #[trigger] r@[singles@.len() + 2 * j]@,
                        pairs@[j],
                        ephs@[singles@.len() + 2 * j]@,
                        self.num_dead_drops,
                        keys_view(self.server_pks@),
                    ) && cover_onion_with(
                        r@[singles@.len() + 2 * j + 1]@,
                        pairs@[j],
                        ephs@[singles@.len() + 2 * j + 1]@,
                        self.num_dead_drops,
                        keys_view(self.server_pks@),
                    )
            },
    {
        let mut requests: Vec<OnionRequest> = Vec::new();
        let ghost pks = keys_view(self.server_pks@);
        let ghost num = self.num_dead_drops;
        let ghost fits = cover_fits(self.server_pks@.len());
        let ghost s = singles@.len() as int;
        // Single-access noise
        let mut k: usize = 0;
        while k < singles.len()
            invariant
                k <= singles@.len(),
                s == singles@.len(),
                num == self.num_dead_drops,
                pks == keys_view(self.server_pks@),
                fits == cover_fits(self.server_pks@.len()),
                forall|i: int| 0 <= i < singles@.len() ==> #[trigger] singles@[i] < self.num_dead_drops,
                ephs@.len() == singles@.len() + 2 * pairs@.len(),
                forall|i: int| 0 <= i < ephs@.len() ==> (#[trigger] ephs@[i])@.len() == self.server_pks@.len(),
                requests@.len() <= k,
                self.server_pks@.len() == 0 ==> requests@.len() == 0,
                cover_layout(requests@, requests@.len() as int, 0, num, pks),
                fits ==> requests@.len() == k && forall|i: int|
                    0 <= i < k ==> cover_onion_with(#[trigger] requests@[i]@, singles@[i], ephs@[i]@, num, pks),
            decreases singles@.len() - k,
        {
            let idx = singles[k];
            let dead_drop_id = indexed_dead_drop(idx);
            let empty_msg = EncryptedMessage::empty();
            match wrap_onion_with_keys(dead_drop_id.0, &empty_msg, self.server_pks.as_slice(), ephs[k].as_slice()) {
                Ok(onion) => {
                    let ghost before = requests@;
                    proof {
                        assert(cover_onion(onion@, idx, num, pks));
                    }
                    requests.push(onion);
                    proof {
                        assert forall|i: int| 0 <= i < requests@.len() implies is_cover_onion(
                            #[trigger] requests@[i]@,
                            num,
                            pks,
                        ) by {
                            if i == requests@.len() - 1 {
                                assert(cover_onion(requests@[i]@, idx, num, pks));
                            } else {
                                assert(requests@[i] == before[i]);
                            }
                        }
                        if fits {
                            assert forall|i: int| 0 <= i < k + 1 implies cover_onion_with(
                                #[trigger] requests@[i]@,
                                singles@[i],
                                ephs@[i]@,
                                num,
                                pks,
                            ) by {
                                if i < k {
                                    assert(requests@[i] == before[i]);
                                }
                            }
                        }
                    }
                },
                Err(_) => {},
            }
            k = k + 1;
        }
        // Pair-access noise: two onions to the same dead drop
        let ghost a = requests@.len() as int;
        let ghost mut b: int = 0;
        let total: usize = ephs.len();
        let mut j: usize = 0;
        while j < pairs.len()
            invariant
                j <= pairs@.len(),
                total == ephs@.len(),
                s == singles@.len(),
                num == self.num_dead_drops,
                pks == keys_view(self.server_pks@),
                fits == cover_fits(self.server_pks@.len()),
                forall|i: int| 0 <= i < pairs@.len() ==> #[trigger] pairs@[i] < self.num_dead_drops,
                ephs@.len() == singles@.len() + 2 * pairs@.len(),
                forall|i: int| 0 <= i < ephs@.len() ==> (#[trigger] ephs@[i])@.len() == self.server_pks@.len(),
                0 <= a <= s,
                0 <= b <= j,
                self.server_pks@.len() == 0 ==> requests@.len() == 0,
                cover_layout(requests@, a, b, num, pks),
                fits ==> a == s && b == j && (forall|i: int|
                    0 <= i < s ==> cover_onion_with(#[trigger] requests@[i]@, singles@[i], ephs@[i]@, num, pks))
                    && (forall|jj: int|
                    0 <= jj < j ==> cover_onion_with(
                        #[trigger] requests@[s + 2 * jj]@,
                        pairs@[jj],
                        ephs@[s + 2 * jj]@,
                        num,
                        pks,
                    ) && cover_onion_with(requests@[s + 2 * jj + 1]@, pairs@[jj], ephs@[s + 2 * jj + 1]@, num, pks)),
            decreases pairs@.len() - j,
        {
            let idx = pairs[j];
            let dead_drop_id = indexed_dead_drop(idx);
            let empty_msg = EncryptedMessage::empty();
            let at = singles.len() + 2 * j;
            let first = wrap_onion_with_keys(dead_drop_id.0, &empty_msg, self.server_pks.as_slice(), ephs[at].as_slice());
            let second = wrap_onion_with_keys(
                dead_drop_id.0,
                &empty_msg,
                self.server_pks.as_slice(),
                ephs[at + 1].as_slice(),
            );
            match (first, second) {
                (Ok(x), Ok(y)) => {
                    let ghost before = requests@;
                    proof {
                        assert(cover_onion(x@, idx, num, pks));
                        assert(cover_onion(y@, idx, num, pks));
                    }
                    requests.push(x);
                    requests.push(y);
                    proof {
                        assert(requests@[a + 2 * b] == x);
                        assert(requests@[a + 2 * b + 1] == y);
                        assert(cover_onion(requests@[a + 2 * b]@, idx, num, pks));
                        assert(cover_pair_at(requests@, a, b, num, pks));
                        assert forall|i: int| 0 <= i < a implies is_cover_onion(#[trigger] requests@[i]@, num, pks) by {
                            assert(requests@[i] == before[i]);
                        }
                        assert forall|jj: int| 0 <= jj < b + 1 implies #[trigger] cover_pair_at(
                            requests@,
                            a,
                            jj,
                            num,
                            pks,
                        ) by {
                            if jj < b {
                                assert(cover_pair_at(before, a, jj, num, pks));
                                assert(requests@[a + 2 * jj] == before[a + 2 * jj]);
                                assert(requests@[a + 2 * jj + 1] == before[a + 2 * jj + 1]);
                            }
                        }
                        if fits {
                            assert forall|i: int| 0 <= i < s implies cover_onion_with(
                                #[trigger] requests@[i]@,
                                singles@[i],
                                ephs@[i]@,
                                num,
                                pks,
                            ) by {
                                assert(requests@[i] == before[i]);
                            }
                            assert(a == s && b == j);
                            assert(requests@[s + 2 * j] == x);
                            assert(requests@[s + 2 * j + 1] == y);
                            assert(pairs@[j as int] == idx);
                            assert(cover_onion_with(x@, idx, ephs@[s + 2 * j]@, num, pks));
                            assert(cover_onion_with(y@, idx, ephs@[s + 2 * j + 1]@, num, pks));
                            assert forall|jj: int| 0 <= jj < j + 1 implies cover_onion_with(
                                #[trigger] requests@[s + 2 * jj]@,
                                pairs@[jj],
                                ephs@[s + 2 * jj]@,
                                num,
                                pks,
                            ) && cover_onion_with(
                                requests@[s + 2 * jj + 1]@,
                                pairs@[jj],
                                ephs@[s + 2 * jj + 1]@,
                                num,
                                pks,
                            ) by {
                                if jj < j {
                                    assert(cover_onion_with(before[s + 2 * jj]@, pairs@[jj], ephs@[s + 2 * jj]@, num, pks));
                                    assert(cover_onion_with(
                                        before[s + 2 * jj + 1]@,
                                        pairs@[jj],
                                        ephs@[s + 2 * jj + 1]@,
                                        num,
                                        pks,
                                    ));
                                    assert(requests@[s + 2 * jj] == before[s + 2 * jj]);
                                    assert(requests@[s + 2 * jj + 1] == before[s + 2 * jj + 1]);
                                } else {
                                    assert(jj == j);
                                }
                            }
                        }
                        b = b + 1;
                    }
                },
                _ => {},
            }
            j = j + 1;
        }
        requests
    }

    /// Draw and build cover traffic for the current round: `n1` onions of an
    /// empty message to random dead drops, and `n2` pairs of such onions to
    /// one random dead drop each, as onion-wrapped requests to send to the
    /// first server; with no server keys there are none. The dead drops and
    /// the ephemeral keys are drawn first; where the random source fails, the
    /// error carries its failure.
    pub fn try_cover_traffic(&self, n1: u64, n2: u64) -> (r: Result<Vec<OnionRequest>, DrawFailure>)
        requires
            self.num_dead_drops > 0 || (n1 == 0 && n2 == 0),
        ensures
            r matches Ok(v) ==> cover_within(v@, n1 as int, n2 as int, self.num_dead_drops, keys_view(self.server_pks@)),
            r matches Ok(v) ==> (self.server_pks@.len() == 0 ==> v@.len() == 0),
            r matches Ok(v) ==> (cover_fits(self.server_pks@.len()) ==> cover_layout(
                v@,
                n1 as int,
                n2 as int,
                self.num_dead_drops,
                keys_view(self.server_pks@),
            )),
            n1 == 0 && n2 == 0 ==> r is Ok,
    {
        let mut singles: Vec<u64> = Vec::new();
        let mut pairs: Vec<u64> = Vec::new();
        let mut ephs: Vec<Vec<PublicKey>> = Vec::new();
        let n = self.server_pks.len();
        proof {
            assert(cover_layout(Seq::<OnionRequest>::empty(), 0, 0, self.num_dead_drops, keys_view(self.server_pks@)));
        }
        // Draw the single-access dead drops and their keys
        let mut k: u64 = 0;
        while k < n1
            invariant
                k <= n1,
                n1 > 0 ==> self.num_dead_drops > 0,
                n == self.server_pks@.len(),
                singles@.len() == k,
                pairs@.len() == 0,
                ephs@.len() == k,
                forall|i: int| 0 <= i < singles@.len() ==> #[trigger] singles@[i] < self.num_dead_drops,
                forall|i: int| 0 <= i < ephs@.len() ==> (#[trigger] ephs@[i])@.len() == n,
                cover_layout(Seq::<OnionRequest>::empty(), 0, 0, self.num_dead_drops, keys_view(self.server_pks@)),
            decreases n1 - k,
        {
            let idx = match random_index(self.num_dead_drops) {
                Ok(i) => i,
                Err(failure) => {
                    return Err(failure);
                },
            };
            let keys = match fresh_keys(n) {
                Ok(v) => v,
                Err(failure) => {
                    return Err(failure);
                },
            };
            singles.push(idx);
            ephs.push(keys);
            k = k + 1;
        }
        // Draw the pair-access dead drops and the keys of both onions
        let mut k: u64 = 0;
        while k < n2
            invariant
                k <= n2,
                n2 > 0 ==> self.num_dead_drops > 0,
                n == self.server_pks@.len(),
                singles@.len() == n1,
                pairs@.len() == k,
                ephs@.len() == n1 + 2 * k,
                forall|i: int| 0 <= i < singles@.len() ==> #[trigger] singles@[i] < self.num_dead_drops,
                forall|i: int| 0 <= i < pairs@.len() ==> #[trigger] pairs@[i] < self.num_dead_drops,
                forall|i: int| 0 <= i < ephs@.len() ==> (#[trigger] ephs@[i])@.len() == n,
                cover_layout(Seq::<OnionRequest>::empty(), 0, 0, self.num_dead_drops, keys_view(self.server_pks@)),
            decreases n2 - k,
        {
            let idx = match random_index(self.num_dead_drops) {
                Ok(i) => i,
                Err(failure) => {
                    return Err(failure);
                },
            };
            let keys1 = match fresh_keys(n) {
                Ok(v) => v,
                Err(failure) => {
                    return Err(failure);
                },
            };
            let keys2 = match fresh_keys(n) {
                Ok(v) => v,
                Err(failure) => {
                    return Err(failure);
                },
            };
            pairs.push(idx);
            ephs.push(keys1);
            ephs.push(keys2);
            k = k + 1;
        }
        let built = self.cover_traffic_from(singles.as_slice(), pairs.as_slice(), ephs.as_slice());
        proof {
            let (a, b) = choose|a: int, b: int|
                0 <= a <= singles@.len() && 0 <= b <= pairs@.len() && #[trigger] cover_layout(
                    built@,
                    a,
                    b,
                    self.num_dead_drops,
                    keys_view(self.server_pks@),
                );
            assert(0 <= a <= n1 && 0 <= b <= n2 && cover_layout(built@, a, b, self.num_dead_drops, keys_view(self.server_pks@)));
            assert(cover_within(built@, n1 as int, n2 as int, self.num_dead_drops, keys_view(self.server_pks@)));
        }
        Ok(built)
    }

    /// Generate cover traffic for the current round: `n1` onions of an empty
    /// message to random dead drops, and `n2` pairs of such onions to one
    /// random dead drop each. Returns onion-wrapped requests to send to the
    /// first server; with no server keys there are none. The dead drops and
    /// the ephemeral keys are drawn first (`try_cover_traffic`); where the
    /// random source fails, there is no cover traffic.
    pub fn generate_cover_traffic(&self, n1: u64, n2: u64) -> (r: Vec<OnionRequest>)
        requires
            self.num_dead_drops > 0 || (n1 == 0 && n2 == 0),
        ensures
            cover_within(r@, n1 as int, n2 as int, self.num_dead_drops, keys_view(self.server_pks@)),
            self.server_pks@.len() == 0 ==> r@.len() == 0,
            cover_fits(self.server_pks@.len()) ==> r@.len() == 0 || cover_layout(
                r@,
                n1 as int,
                n2 as int,
                self.num_dead_drops,
                keys_view(self.server_pks@),
            ),
    {
        match self.try_cover_traffic(n1, n2) {
            Ok(v) => v,
            Err(_) => {
                proof {
                    assert(cover_layout(Seq::<OnionRequest>::empty(), 0, 0, self.num_dead_drops, keys_view(self.server_pks@)));
                }
                Vec::new()
            },
        }
    }

    /// Check if the client is currently in a conversation.
    pub fn is_in_conversation(&self) -> (r: bool)
        ensures
            r == self.conversation is Some,
    {
        self.conversation.is_some()
    }

    /// End the current conversation; dialing becomes idle.
    pub fn end_conversation(&mut self)
        requires
            old(self).wf(),
        ensures
            final(self).wf(),
            final(self).conversation is None,
            final(self).dialing.state is Idle,
            final(self).current_round == old(self).current_round,
            final(self).keypair == old(self).keypair,
            final(self).server_pks == old(self).server_pks,
    {
        self.conversation = None;
        self.dialing.state = DialingState::Idle;
    }
}

/// Cover traffic laid out as `n1` single onions and `n2` pairs holds
/// `n1 + 2 * n2` onions, each with one layer per server.
pub proof fn law_cover_traffic_shape(reqs: Seq<OnionRequest>, n1: int, n2: int, num: usize, pks: Seq<Seq<u8>>)
    requires
        0 <= n1,
        0 <= n2,
        cover_layout(reqs, n1, n2, num, pks),
    ensures
        reqs.len() == n1 + 2 * n2,
        forall|i: int| 0 <= i < reqs.len() ==> (#[trigger] reqs[i]).layers@.len() == pks.len(),
{
    assert forall|i: int| 0 <= i < reqs.len() implies (#[trigger] reqs[i]).layers@.len() == pks.len() by {
        if i < n1 {
            assert(is_cover_onion(reqs[i]@, num, pks));
            let idx = choose|idx: u64| #[trigger] cover_onion(reqs[i]@, idx, num, pks);
            assert(reqs[i]@.len() == pks.len());
        } else {
            let j = (i - n1) / 2;
            assert(0 <= j < n2);
            assert(cover_pair_at(reqs, n1, j, num, pks));
            let idx = choose|idx: u64|
                #[trigger] cover_onion(reqs[n1 + 2 * j]@, idx, num, pks) && cover_onion(
                    reqs[n1 + 2 * j + 1]@,
                    idx,
                    num,
                    pks,
                );
            assert(i == n1 + 2 * j || i == n1 + 2 * j + 1);
            assert(reqs[i]@.len() == pks.len());
        }
    }
}

} // verus!
