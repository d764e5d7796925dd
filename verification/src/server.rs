//! Vuvuzela servers: each peels one onion layer of every request; the last
//! one places requests into its dead drop store; every server adds noise.
use crate::bytes::{array32_from, copy_range};
use crate::codec::{decode_layer, decoded_layer, lemma_layer_roundtrip};
use crate::config::ServerConfig;
use crate::dead_drop::{
    after_exchange, exchange_answer, index_drop, indexed_dead_drop, random_index, result_view, DeadDropStore,
    ExchangeRequest, ExchangeResult,
};
use crate::primitives::DrawFailure;
use crate::onion::{keys_view, layer_inner, peel_layer, peeled, wraps, OnionError, OnionLayer, OnionRequest};
use crate::types::{DeadDropId, EncryptedMessage, Keypair, PublicKey, RoundNumber};
use std::collections::HashMap;
use vstd::prelude::*;

verus! {

broadcast use vstd::std_specs::hash::group_hash_axioms;

/// Errors from server operations.
#[derive(Clone, Copy, Debug, PartialEq, Eq)]
pub enum ServerError {
    Onion(OnionError),
    InvalidRequest,
    RoundNotStarted,
    /// The operating system's random source failed while drawing noise.
    RandomSourceFailed(DrawFailure),
}

/// Per-round state for the server.
pub struct RoundState {
    /// The round number.
    pub round: RoundNumber,
    /// Dead drop store for this round.
    pub store: DeadDropStore,
    /// Number of dead drops.
    pub num_dead_drops: usize,
    /// Whether noise has been added for this round.
    pub noise_added: bool,
}

impl RoundState {
    pub fn new(round: RoundNumber, num_dead_drops: usize) -> (r: Self)
        ensures
            r.round == round,
            r.store.wf(),
            r.store@ == Map::<Seq<u8>, Seq<u8>>::empty(),
            r.store.ids() == Seq::<Seq<u8>>::empty(),
            r.num_dead_drops == num_dead_drops,
            !r.noise_added,
    {
        RoundState { round, store: DeadDropStore::new(), num_dead_drops, noise_added: false }
    }
}

/// The key bytes of a configuration field: the field where it has 32 bytes,
/// otherwise 32 zero bytes.
pub open spec fn config_key(bytes: Seq<u8>) -> Seq<u8> {
    if bytes.len() == 32 {
        bytes
    } else {
        crate::bytes::zeros(32)
    }
}

/// The index of the next server in a chain of `num_servers`, if any.
pub open spec fn next_index(index: usize, num_servers: usize) -> Option<usize> {
    if index + 1 < num_servers {
        Some((index + 1) as usize)
    } else {
        None
    }
}

/// The dead drops noise goes to, in order: the dead drop of each single index
/// once, then the dead drop of each pair index twice.
pub open spec fn noise_drops(singles: Seq<u64>, pairs: Seq<u64>) -> Seq<Seq<u8>> {
    Seq::new(
        (singles.len() + 2 * pairs.len()) as nat,
        |i: int|
            if i < singles.len() {
                index_drop(singles[i])
            } else {
                index_drop(pairs[(i - singles.len()) / 2])
            },
    )
}

/// The store after an empty message is exchanged at each of `drops`, in order.
pub open spec fn with_noise(store: Map<Seq<u8>, Seq<u8>>, drops: Seq<Seq<u8>>) -> Map<Seq<u8>, Seq<u8>>
    decreases drops.len(),
{
    if drops.len() == 0 {
        store
    } else {
        after_exchange(
            with_noise(store, drops.drop_last()),
            drops.last(),
            crate::bytes::zeros(crate::types::MESSAGE_SIZE as nat),
        )
    }
}

/// Every index is below `num`.
pub open spec fn indices_below(indices: Seq<u64>, num: usize) -> bool {
    forall|i: int| 0 <= i < indices.len() ==> #[trigger] indices[i] < num
}

/// `a` and `b` are the same server: the same place in the chain, the same
/// keys and the same number of dead drops.
pub open spec fn same_setup(a: Server, b: Server) -> bool {
    &&& a.index == b.index
    &&& a.num_servers == b.num_servers
    &&& a.public_key == b.public_key
    &&& a.secret_key == b.secret_key
    &&& a.num_dead_drops == b.num_dead_drops
    &&& a.next_server_index == b.next_server_index
}

/// `after` is `before` with noise added to its started round, unless the round
/// already had its noise, in which case nothing changes: `n1` single and `n2`
/// pair indices below the number of dead drops are drawn, and an empty message
/// is exchanged once at each single index's dead drop and twice at each pair
/// index's, in order.
pub open spec fn noise_added_to(before: Server, after: Server, n1: u64, n2: u64) -> bool {
    &&& before.current_round matches Some(rs)
    &&& after.current_round matches Some(nrs)
    &&& nrs.noise_added
    &&& same_setup(before, after)
    &&& after.round_results@ == before.round_results@
    &&& rs.noise_added ==> after == before
    &&& !rs.noise_added ==> {
        &&& nrs.round == rs.round
        &&& nrs.num_dead_drops == rs.num_dead_drops
        &&& rs.store.ids().len() <= nrs.store.ids().len() <= rs.store.ids().len() + n1 + n2
        &&& exists|singles: Seq<u64>, pairs: Seq<u64>|
            {
                &&& singles.len() == n1
                &&& pairs.len() == n2
                &&& indices_below(singles, before.num_dead_drops)
                &&& indices_below(pairs, before.num_dead_drops)
                &&& nrs.store@ == #[trigger] with_noise(rs.store@, noise_drops(singles, pairs))
            }
    }
}

/// The servers before `k` have had their noise added with their counts, and
/// the others are unchanged.
pub open spec fn noised_up_to(before: Seq<Server>, after: Seq<Server>, counts: Seq<(u64, u64)>, k: int) -> bool {
    &&& forall|j: int|
        0 <= j < k ==> noise_added_to(before[j], #[trigger] after[j], counts[j].0, counts[j].1)
    &&& forall|j: int| k <= j < before.len() ==> #[trigger] after[j] == before[j]
}

/// `after` is `before` at the end of its started round: the number of
/// accessed dead drops is recorded for the round, and the dead drops are
/// cleared.
pub open spec fn round_ended(before: Server, after: Server) -> bool {
    &&& before.current_round matches Some(rs)
    &&& after.current_round matches Some(nrs)
    &&& nrs.store@ == Map::<Seq<u8>, Seq<u8>>::empty()
    &&& nrs.store.ids() == Seq::<Seq<u8>>::empty()
    &&& nrs.round == rs.round
    &&& nrs.num_dead_drops == rs.num_dead_drops
    &&& nrs.noise_added == rs.noise_added
    &&& after.round_results@ == before.round_results@.insert(rs.round.0, rs.store.ids().len() as usize)
    &&& same_setup(before, after)
}

/// Vuvuzela server: processes onion-wrapped requests, manages dead drops, adds noise.
pub struct Server {
    /// Server index in the chain.
    pub index: usize,
    /// Total number of servers.
    pub num_servers: usize,
    /// Server's public key.
    pub public_key: PublicKey,
    /// Server's secret key bytes. Layers are opened with keys derived from
    /// public keys only, so nothing reads this.
    pub secret_key: [u8; 32],
    /// Number of dead drops.
    pub num_dead_drops: usize,
    /// Current round state.
    pub current_round: Option<RoundState>,
    /// Next server in the chain (if not the last).
    pub next_server_index: Option<usize>,
    /// Completed round results: round number -> number of exchanges.
    pub round_results: HashMap<u64, usize>,
}

fn key_from_config(bytes: &Vec<u8>) -> (r: [u8; 32])
    ensures
        r@ == config_key(bytes@),
{
    if bytes.len() == 32 {
        array32_from(bytes.as_slice(), 0)
    } else {
        let r = [0u8; 32];
        assert(r@ =~= crate::bytes::zeros(32));
        r
    }
}

fn next_server(index: usize, num_servers: usize) -> (r: Option<usize>)
    requires
        index < usize::MAX,
    ensures
        r == next_index(index, num_servers),
{
    if index + 1 < num_servers {
        Some(index + 1)
    } else {
        None
    }
}

impl Server {
    /// The server's internal consistency: the store of a started round is well formed.
    pub open spec fn wf(&self) -> bool {
        self.current_round matches Some(rs) ==> rs.store.wf()
    }

    /// Create a new server from config. A key that is not 32 bytes long is
    /// taken as all zeros.
    pub fn new(config: ServerConfig) -> (r: Self)
        requires
            config.server_index < usize::MAX,
        ensures
            r.wf(),
            r.index == config.server_index,
            r.num_servers == config.num_servers,
            r.public_key@ == config_key(config.public_key@),
            r.secret_key@ == config_key(config.secret_key@),
            r.num_dead_drops == config.num_dead_drops,
            r.current_round is None,
            r.next_server_index == next_index(config.server_index, config.num_servers),
            r.round_results@ == Map::<u64, usize>::empty(),
    {
        let public_key = key_from_config(&config.public_key);
        let secret_key = key_from_config(&config.secret_key);
        Server {
            index: config.server_index,
            num_servers: config.num_servers,
            public_key: PublicKey(public_key),
            secret_key,
            num_dead_drops: config.num_dead_drops,
            current_round: None,
            next_server_index: next_server(config.server_index, config.num_servers),
            round_results: HashMap::new(),
        }
    }

    /// Create a new server with a fresh keypair; the random source's failure
    /// where no key can be generated.
    pub fn new_with_keypair(index: usize, num_servers: usize, num_dead_drops: usize) -> (r: Result<
        (Self, Keypair),
        DrawFailure,
    >)
        requires
            index < usize::MAX,
        ensures
            r matches Ok(p) ==> {
                &&& p.0.wf()
                &&& p.0.index == index
                &&& p.0.num_servers == num_servers
                &&& p.1.public == p.0.public_key
                &&& p.0.secret_key@ == crate::bytes::zeros(32)
                &&& p.0.num_dead_drops == num_dead_drops
                &&& p.0.current_round is None
                &&& p.0.next_server_index == next_index(index, num_servers)
                &&& p.0.round_results@ == Map::<u64, usize>::empty()
            },
    {
        let pk = match crate::onion::generate_server_keypair() {
            Ok(pk) => pk,
            Err(failure) => {
                return Err(failure);
            },
        };
        let sk = [0u8; 32];
        assert(sk@ =~= crate::bytes::zeros(32));
        let server = Server {
            index,
            num_servers,
            public_key: pk,
            secret_key: sk,
            num_dead_drops,
            current_round: None,
            next_server_index: next_server(index, num_servers),
            round_results: HashMap::new(),
        };
        let kp = Keypair { public: pk };
        Ok((server, kp))
    }

    /// Start a new round, with an empty dead drop store.
    pub fn start_round(&mut self, round: RoundNumber)
        ensures
            final(self).wf(),
            final(self).current_round matches Some(rs) && rs.round == round && rs.store@ == Map::<
                Seq<u8>,
                Seq<u8>,
            >::empty() && rs.store.ids() == Seq::<Seq<u8>>::empty() && rs.num_dead_drops
                == old(self).num_dead_drops && !rs.noise_added,
            final(self).index == old(self).index,
            final(self).num_servers == old(self).num_servers,
            final(self).public_key == old(self).public_key,
            final(self).secret_key == old(self).secret_key,
            final(self).num_dead_drops == old(self).num_dead_drops,
            final(self).next_server_index == old(self).next_server_index,
            final(self).round_results == old(self).round_results,
    {
        self.current_round = Some(RoundState::new(round, self.num_dead_drops));
    }

    /// Peel this server's layer.
    fn peel_own_layer(&self, layer: &OnionLayer) -> (r: Result<Vec<u8>, ServerError>)
        ensures
            match r {
                Ok(p) => peeled(layer@, self.public_key@) == Ok::<Seq<u8>, OnionError>(p@),
                Err(e) => exists|oe: OnionError|
                    peeled(layer@, self.public_key@) == Err::<Seq<u8>, OnionError>(oe) && e
                        == ServerError::Onion(oe),
            },
    {
        match peel_layer(layer, &self.public_key) {
            Ok(p) => Ok(p),
            Err(e) => Err(ServerError::Onion(e)),
        }
    }

    /// Process a single onion-wrapped request: peel the outermost layer with
    /// this server's key. Returns the peeled payload (the next layer's
    /// encoding, or, at the last server, dead drop ID and encrypted message).
    pub fn process_request(&mut self, onion: &OnionRequest) -> (r: Result<Vec<u8>, ServerError>)
        ensures
            *final(self) == *old(self),
            onion.layers@.len() == 0 ==> r == Err::<Vec<u8>, ServerError>(ServerError::InvalidRequest),
            onion.layers@.len() > 0 ==> match r {
                Ok(p) => peeled(onion@[0], old(self).public_key@) == Ok::<Seq<u8>, OnionError>(p@),
                Err(e) => exists|oe: OnionError|
                    peeled(onion@[0], old(self).public_key@) == Err::<Seq<u8>, OnionError>(oe) && e
                        == ServerError::Onion(oe),
            },
    {
        if onion.layers.len() == 0 {
            return Err(ServerError::InvalidRequest);
        }
        // Peel the outermost layer
        let layer = &onion.layers[0];
        self.peel_own_layer(layer)
    }

    /// Process a fully peeled request: place its message into this round's dead drop.
    pub fn place_in_dead_drop(&mut self, dead_drop_id: [u8; 16], payload: EncryptedMessage) -> (r: Result<
        ExchangeResult,
        ServerError,
    >)
        requires
            old(self).wf(),
        ensures
            final(self).wf(),
            same_setup(*old(self), *final(self)),
            final(self).round_results == old(self).round_results,
            old(self).current_round is None ==> r == Err::<ExchangeResult, ServerError>(
                ServerError::RoundNotStarted,
            ) && *final(self) == *old(self),
            old(self).current_round matches Some(rs) ==> (r matches Ok(res) && result_view(res)
                == exchange_answer(rs.store@, dead_drop_id@)),
            old(self).current_round matches Some(rs) ==> (final(self).current_round matches Some(nrs)
                && nrs.store@ == after_exchange(rs.store@, dead_drop_id@, payload@) && nrs.round
                == rs.round && nrs.num_dead_drops == rs.num_dead_drops && nrs.noise_added
                == rs.noise_added),
    {
        match &mut self.current_round {
            None => Err(ServerError::RoundNotStarted),
            Some(round) => {
                let result = round.store.exchange(
                    ExchangeRequest { dead_drop_id: DeadDropId(dead_drop_id), payload },
                );
                Ok(result)
            },
        }
    }

    /// Place noise in the current round: an empty message at the dead drop of
    /// each single index, then two at the dead drop of each pair index, in
    /// order.
    pub fn place_noise(&mut self, singles: &[u64], pairs: &[u64]) -> (r: Result<(), ServerError>)
        requires
            old(self).wf(),
            indices_below(singles@, old(self).num_dead_drops),
            indices_below(pairs@, old(self).num_dead_drops),
        ensures
            final(self).wf(),
            old(self).current_round is None ==> r == Err::<(), ServerError>(ServerError::RoundNotStarted)
                && *final(self) == *old(self),
            final(self).index == old(self).index,
            final(self).num_servers == old(self).num_servers,
            final(self).public_key == old(self).public_key,
            final(self).secret_key == old(self).secret_key,
            final(self).num_dead_drops == old(self).num_dead_drops,
            final(self).next_server_index == old(self).next_server_index,
            final(self).round_results == old(self).round_results,
            old(self).current_round matches Some(rs) ==> (r is Ok && (final(self).current_round matches Some(nrs)
                && nrs.round == rs.round && nrs.num_dead_drops == rs.num_dead_drops && nrs.noise_added
                == rs.noise_added && nrs.store@ == with_noise(rs.store@, noise_drops(singles@, pairs@))
                && rs.store.ids().len() <= nrs.store.ids().len() <= rs.store.ids().len() + singles@.len()
                + pairs@.len())),
    {
        match &mut self.current_round {
            None => Err(ServerError::RoundNotStarted),
            Some(round) => {
                let ghost start = round.store@;
                let ghost start_len = round.store.ids().len();
                let ghost drops = noise_drops(singles@, pairs@);
                let ghost old_round = round.round;
                let ghost old_num = round.num_dead_drops;
                let ghost old_added = round.noise_added;
                // Single-access noise: one empty message per dead drop
                let mut k: usize = 0;
                while k < singles.len()
                    invariant
                        k <= singles@.len(),
                        round.store.wf(),
                        round.round == old_round,
                        round.num_dead_drops == old_num,
                        round.noise_added == old_added,
                        drops == noise_drops(singles@, pairs@),
                        round.store@ == with_noise(start, drops.take(k as int)),
                        start_len <= round.store.ids().len() <= start_len + k,
                    decreases singles@.len() - k,
                {
                    let dead_drop_id = indexed_dead_drop(singles[k]);
                    let empty = EncryptedMessage::empty();
                    round.store.exchange(ExchangeRequest { dead_drop_id, payload: empty });
                    proof {
                        assert(drops.take(k + 1).drop_last() =~= drops.take(k as int));
                        assert(drops.take(k + 1).last() == index_drop(singles@[k as int]));
                    }
                    k = k + 1;
                }
                // Pair-access noise: two empty messages in the same dead drop
                let mut j: usize = 0;
                while j < pairs.len()
                    invariant
                        j <= pairs@.len(),
                        round.store.wf(),
                        round.round == old_round,
                        round.num_dead_drops == old_num,
                        round.noise_added == old_added,
                        drops == noise_drops(singles@, pairs@),
                        round.store@ == with_noise(start, drops.take(singles@.len() + 2 * j)),
                        start_len <= round.store.ids().len() <= start_len + singles@.len() + j,
                    decreases pairs@.len() - j,
                {
                    let dead_drop_id = indexed_dead_drop(pairs[j]);
                    let empty = EncryptedMessage::empty();
                    let empty2 = empty.duplicate();
                    let ghost at = singles@.len() + 2 * j;
                    let ghost mid_len = round.store.ids().len();
                    proof {
                        assert((2 * j as int) / 2 == j as int);
                        assert((2 * j as int + 1) / 2 == j as int);
                        assert(drops[at] == index_drop(pairs@[j as int]));
                        assert(drops[at + 1] == index_drop(pairs@[j as int]));
                        assert(drops.take(at + 1).drop_last() =~= drops.take(at));
                        assert(drops.take(at + 1).last() == drops[at]);
                        assert(drops.take(at + 2).drop_last() =~= drops.take(at + 1));
                        assert(drops.take(at + 2).last() == drops[at + 1]);
                    }
                    round.store.exchange(ExchangeRequest { dead_drop_id, payload: empty2 });
                    proof {
                        assert(round.store@ == with_noise(start, drops.take(at + 1)));
                    }
                    round.store.exchange(ExchangeRequest { dead_drop_id, payload: empty });
                    proof {
                        assert(round.store@ == with_noise(start, drops.take(at + 2)));
                        assert(round.store.ids().len() <= mid_len + 1);
                    }
                    j = j + 1;
                }
                proof {
                    assert(drops.take(drops.len() as int) =~= drops);
                }
                Ok(())
            },
        }
    }

    /// Add cover traffic for the current round: `n1` empty messages in random
    /// dead drops, and `n2` pairs of empty messages in one random dead drop
    /// each. A round gets noise once; later calls change nothing. The indices
    /// are drawn first; where the random source fails, nothing is placed and
    /// the round stays without noise (`RandomSourceFailed`, carrying the random
    /// source's failure).
    pub fn add_noise(&mut self, n1: u64, n2: u64) -> (r: Result<(), ServerError>)
        requires
            old(self).wf(),
            old(self).current_round matches Some(rs) && !rs.noise_added && (n1 > 0 || n2 > 0) ==> old(
                self,
            ).num_dead_drops > 0,
        ensures
            final(self).wf(),
            final(self).index == old(self).index,
            final(self).num_servers == old(self).num_servers,
            final(self).public_key == old(self).public_key,
            final(self).secret_key == old(self).secret_key,
            final(self).num_dead_drops == old(self).num_dead_drops,
            final(self).next_server_index == old(self).next_server_index,
            final(self).round_results == old(self).round_results,
            old(self).current_round is None ==> r == Err::<(), ServerError>(ServerError::RoundNotStarted)
                && *final(self) == *old(self),
            old(self).current_round matches Some(rs) && rs.noise_added ==> r is Ok && *final(self) == *old(self),
            old(self).current_round is Some && n1 == 0 && n2 == 0 ==> r is Ok,
            old(self).current_round is Some && r is Ok ==> noise_added_to(*old(self), *final(self), n1, n2),
            old(self).current_round is Some && r is Err ==> (r matches Err(ServerError::RandomSourceFailed(_)))
                && *final(self) == *old(self),
    {
        let already = match &self.current_round {
            None => {
                return Err(ServerError::RoundNotStarted);
            },
            Some(round) => round.noise_added,
        };
        if already {
            return Ok(());
        }
        let num_dead_drops = self.num_dead_drops;
        let mut singles: Vec<u64> = Vec::new();
        let mut pairs: Vec<u64> = Vec::new();
        // Draw the single-access indices
        let mut k: u64 = 0;
        while k < n1
            invariant
                *self == *old(self),
                old(self).wf(),
                old(self).current_round matches Some(rs) && !rs.noise_added,
                k <= n1,
                n1 > 0 ==> num_dead_drops > 0,
                singles@.len() == k,
                indices_below(singles@, num_dead_drops),
            decreases n1 - k,
        {
            match random_index(num_dead_drops) {
                Ok(i) => singles.push(i),
                Err(failure) => {
                    return Err(ServerError::RandomSourceFailed(failure));
                },
            }
            k = k + 1;
        }
        // Draw the pair-access indices
        let mut k: u64 = 0;
        while k < n2
            invariant
                *self == *old(self),
                old(self).wf(),
                old(self).current_round matches Some(rs) && !rs.noise_added,
                k <= n2,
                n2 > 0 ==> num_dead_drops > 0,
                singles@.len() == n1,
                indices_below(singles@, num_dead_drops),
                pairs@.len() == k,
                indices_below(pairs@, num_dead_drops),
            decreases n2 - k,
        {
            match random_index(num_dead_drops) {
                Ok(i) => pairs.push(i),
                Err(failure) => {
                    return Err(ServerError::RandomSourceFailed(failure));
                },
            }
            k = k + 1;
        }
        let ghost before = *self;
        let _ = self.place_noise(singles.as_slice(), pairs.as_slice());
        match &mut self.current_round {
            Some(round) => {
                round.noise_added = true;
            },
            None => {},
        }
        proof {
            let rs = before.current_round->Some_0;
            assert(self.current_round->Some_0.store@ == with_noise(rs.store@, noise_drops(singles@, pairs@)));
        }
        Ok(())
    }

    /// End the current round: record how many dead drops were accessed, then
    /// clear them. Returns that number.
    pub fn end_round(&mut self) -> (r: Result<usize, ServerError>)
        requires
            old(self).wf(),
        ensures
            final(self).wf(),
            final(self).num_servers == old(self).num_servers,
            final(self).secret_key == old(self).secret_key,
            final(self).index == old(self).index,
            final(self).public_key == old(self).public_key,
            final(self).num_dead_drops == old(self).num_dead_drops,
            final(self).next_server_index == old(self).next_server_index,
            old(self).current_round is None ==> r == Err::<usize, ServerError>(
                ServerError::RoundNotStarted,
            ) && *final(self) == *old(self),
            old(self).current_round matches Some(rs) ==> (r matches Ok(n) && n
                == rs.store.ids().len() && final(self).round_results@ == old(
                self,
            ).round_results@.insert(rs.round.0, n)),
            old(self).current_round matches Some(rs) ==> (final(self).current_round matches Some(nrs)
                && nrs.store@ == Map::<Seq<u8>, Seq<u8>>::empty() && nrs.store.ids() == Seq::<
                Seq<u8>,
            >::empty() && nrs.round == rs.round && nrs.num_dead_drops == rs.num_dead_drops
                && nrs.noise_added == rs.noise_added),
    {
        match &mut self.current_round {
            None => Err(ServerError::RoundNotStarted),
            Some(round) => {
                let exchanges = round.store.len();
                self.round_results.insert(round.round.0, exchanges);
                round.store.clear();
                Ok(exchanges)
            },
        }
    }

    /// Get the current round number.
    pub fn current_round_number(&self) -> (r: Option<RoundNumber>)
        ensures
            r == match self.current_round {
                Some(rs) => Some(rs.round),
                None => None::<RoundNumber>,
            },
    {
        match &self.current_round {
            Some(r) => Some(r.round),
            None => None,
        }
    }

    /// Check if this is the last server in the chain.
    pub fn is_last_server(&self) -> (r: bool)
        ensures
            r == self.next_server_index is None,
    {
        self.next_server_index.is_none()
    }

    /// Get the number of pending dead drops in the current round.
    pub fn pending_dead_drops(&self) -> (r: usize)
        requires
            self.wf(),
        ensures
            r == match self.current_round {
                Some(rs) => rs.store.ids().len(),
                None => 0,
            },
    {
        match &self.current_round {
            Some(r) => r.store.len(),
            None => 0,
        }
    }
}

/// The public keys of the servers, in chain order.
pub open spec fn server_keys(servers: Seq<Server>) -> Seq<Seq<u8>> {
    servers.map_values(|s: Server| s.public_key@)
}

/// What the servers from the `i`-th on make of `data`, the `i - 1`-th server's
/// output: each decodes a layer from what it receives and peels it.
pub open spec fn peel_rest(data: Seq<u8>, pks: Seq<Seq<u8>>, i: nat) -> Result<Seq<u8>, ServerError>
    decreases pks.len() - i,
{
    if i >= pks.len() {
        Ok(data)
    } else {
        match decoded_layer(data) {
            None => Err(ServerError::InvalidRequest),
            Some(layer) => match peeled(layer, pks[i as int]) {
                Ok(next) => peel_rest(next, pks, i + 1),
                Err(e) => Err(ServerError::Onion(e)),
            },
        }
    }
}

/// What a chain of servers with keys `pks` makes of an onion request: the
/// first server peels the request's outer layer, each later one the layer
/// decoded from its predecessor's output.
pub open spec fn chain_peeled(layers: Seq<(Seq<u8>, Seq<u8>)>, pks: Seq<Seq<u8>>) -> Result<
    Seq<u8>,
    ServerError,
> {
    if layers.len() == 0 {
        Err(ServerError::InvalidRequest)
    } else {
        match peeled(layers[0], pks[0]) {
            Ok(data) => peel_rest(data, pks, 1),
            Err(e) => Err(ServerError::Onion(e)),
        }
    }
}

/// Peel an onion request through a chain of servers with keys `server_pks`:
/// the first server peels the request's outer layer, each later one decodes a
/// layer from its predecessor's output and peels it. Returns what the last
/// server is left with.
#[verifier::spinoff_prover]
#[verifier::rlimit(40)]
pub fn peel_chain(onion: &OnionRequest, server_pks: &[PublicKey]) -> (r: Result<Vec<u8>, ServerError>)
    requires
        server_pks@.len() > 0,
    ensures
        match chain_peeled(onion@, keys_view(server_pks@)) {
        Ok(d) => r matches Ok(v) && v@ == d,
        Err(e) => r == Err::<Vec<u8>, ServerError>(e),
    },
    forall|dead_drop_id: Seq<u8>, payload: Seq<u8>|
        wraps(onion@, dead_drop_id, payload, keys_view(server_pks@)) ==> #[trigger] chain_peeled(
            onion@,
            keys_view(server_pks@),
        ) == Ok::<Seq<u8>, ServerError>(dead_drop_id + payload),
{
    let n = server_pks.len();
    let ghost pks = keys_view(server_pks@);
    if onion.layers.len() == 0 {
        return Err(ServerError::InvalidRequest);
    }
    // The first server peels the outer layer of the request
    let mut data = match peel_layer(&onion.layers[0], &server_pks[0]) {
        Ok(d) => d,
        Err(e) => {
            return Err(ServerError::Onion(e));
        },
    };
    proof {
        assert(pks[0] == server_pks@[0]@);
        assert forall|dd: Seq<u8>, p: Seq<u8>| wraps(onion@, dd, p, pks) implies data@
            == layer_inner(onion@, 0, dd, p) by {
            assert(onion@[0] == onion.layers@[0]@);
        }
    }
    // Each later server peels the layer its predecessor forwarded
    let mut i: usize = 1;
    while i < n
        invariant
            n == server_pks@.len(),
            n > 0,
            1 <= i <= n,
            pks == keys_view(server_pks@),
            chain_peeled(onion@, pks) == peel_rest(data@, pks, i as nat),
            forall|dd: Seq<u8>, p: Seq<u8>|
                #[trigger] wraps(onion@, dd, p, pks) ==> data@ == layer_inner(onion@, i - 1, dd, p),
        decreases n - i,
    {
        let layer = match decode_layer(data.as_slice()) {
            Some(l) => l,
            None => {
                proof {
                    assert forall|dd: Seq<u8>, p: Seq<u8>| !wraps(onion@, dd, p, pks) by {
                        if wraps(onion@, dd, p, pks) {
                            let l = onion@[i as int];
                            assert(onion.layers@[i as int].ciphertext.len()
                                == onion.layers@[i as int].ciphertext@.len());
                            lemma_layer_roundtrip(l.0, l.1, Seq::empty());
                            assert(layer_inner(onion@, i - 1, dd, p) + Seq::empty() =~= layer_inner(onion@, i - 1, dd, p));
                        }
                    }
                }
                return Err(ServerError::InvalidRequest);
            },
        };
        let ghost next_pk = pks[i as int];
        assert(next_pk == server_pks@[i as int]@);
        proof {
            assert forall|dd: Seq<u8>, p: Seq<u8>| #[trigger] wraps(onion@, dd, p, pks) implies layer@
                == onion@[i as int] by {
                let l = onion@[i as int];
                assert(onion.layers@[i as int].ciphertext.len()
                    == onion.layers@[i as int].ciphertext@.len());
                lemma_layer_roundtrip(l.0, l.1, Seq::empty());
                assert(layer_inner(onion@, i - 1, dd, p) + Seq::empty() =~= layer_inner(onion@, i - 1, dd, p));
            }
        }
        data = match peel_layer(&layer, &server_pks[i]) {
            Ok(d) => d,
            Err(e) => {
                return Err(ServerError::Onion(e));
            },
        };
        i = i + 1;
    }
    proof {
        assert forall|dd: Seq<u8>, p: Seq<u8>| wraps(onion@, dd, p, pks) implies chain_peeled(onion@, pks)
            == Ok::<Seq<u8>, ServerError>(dd + p) by {
            assert(data@ == layer_inner(onion@, n - 1, dd, p));
        }
    }
    Ok(data)
}

/// Every server before the `i`-th has started a round.
pub open spec fn rounds_started_before(servers: Seq<Server>, i: int) -> bool {
    forall|j: int| 0 <= j < i ==> (#[trigger] servers[j]).current_round is Some
}

/// Every server's internal consistency.
pub open spec fn servers_wf(servers: Seq<Server>) -> bool {
    forall|i: int| 0 <= i < servers.len() ==> (#[trigger] servers[i]).wf()
}

/// A chain of servers that processes rounds together.
pub struct ServerChain {
    /// Servers in the chain, ordered.
    pub servers: Vec<Server>,
}

impl ServerChain {
    /// Create a new server chain with the given number of servers, each with
    /// a fresh key; the random source's failure where no key can be
    /// generated.
    pub fn new(num_servers: usize, num_dead_drops: usize) -> (r: Result<Self, DrawFailure>)
        ensures
            r matches Ok(c) ==> {
                &&& c.servers@.len() == num_servers
                &&& servers_wf(c.servers@)
                &&& forall|i: int|
                    0 <= i < num_servers ==> {
                        &&& (#[trigger] c.servers@[i]).index == i
                        &&& c.servers@[i].num_servers == num_servers
                        &&& c.servers@[i].num_dead_drops == num_dead_drops
                        &&& c.servers@[i].current_round is None
                        &&& c.servers@[i].next_server_index == next_index(i as usize, num_servers)
                        &&& c.servers@[i].round_results@ == Map::<u64, usize>::empty()
                    }
            },
            num_servers == 0 ==> (r matches Ok(c) && c.servers@.len() == 0),
    {
        let mut servers: Vec<Server> = Vec::new();
        let mut i: usize = 0;
        while i < num_servers
            invariant
                i <= num_servers,
                servers@.len() == i,
                servers_wf(servers@),
                forall|j: int|
                    0 <= j < i ==> {
                        &&& (#[trigger] servers@[j]).index == j
                        &&& servers@[j].num_servers == num_servers
                        &&& servers@[j].num_dead_drops == num_dead_drops
                        &&& servers@[j].current_round is None
                        &&& servers@[j].next_server_index == next_index(j as usize, num_servers)
                        &&& servers@[j].round_results@ == Map::<u64, usize>::empty()
                    },
            decreases num_servers - i,
        {
            let pk = match crate::onion::generate_server_keypair() {
                Ok(pk) => pk,
                Err(failure) => {
                    return Err(failure);
                },
            };
            let next_idx = next_server(i, num_servers);
            let sk = [0u8; 32];
            servers.push(
                Server {
                    index: i,
                    num_servers,
                    public_key: pk,
                    secret_key: sk,
                    num_dead_drops,
                    current_round: None,
                    next_server_index: next_idx,
                    round_results: HashMap::new(),
                },
            );
            i = i + 1;
        }
        Ok(ServerChain { servers })
    }

    /// Start a round on all servers.
    pub fn start_round(&mut self, round: RoundNumber)
        ensures
            final(self).servers@.len() == old(self).servers@.len(),
            servers_wf(final(self).servers@),
            forall|i: int|
                0 <= i < old(self).servers@.len() ==> {
                    &&& (#[trigger] final(self).servers@[i]).current_round matches Some(rs) && rs.round
                        == round && rs.store@ == Map::<Seq<u8>, Seq<u8>>::empty() && !rs.noise_added
                        && rs.num_dead_drops == old(self).servers@[i].num_dead_drops
                    &&& same_setup(old(self).servers@[i], final(self).servers@[i])
                    &&& final(self).servers@[i].round_results == old(self).servers@[i].round_results
                },
    {
        let n = self.servers.len();
        let mut i: usize = 0;
        while i < n
            invariant
                n == old(self).servers@.len(),
                self.servers@.len() == n,
                i <= n,
                forall|j: int| i <= j < n ==> #[trigger] self.servers@[j] == old(self).servers@[j],
                forall|j: int|
                    0 <= j < i ==> {
                        &&& (#[trigger] self.servers@[j]).wf()
                        &&& self.servers@[j].current_round matches Some(rs) && rs.round == round
                            && rs.store@ == Map::<Seq<u8>, Seq<u8>>::empty() && !rs.noise_added
                            && rs.num_dead_drops == old(self).servers@[j].num_dead_drops
                        &&& same_setup(old(self).servers@[j], self.servers@[j])
                        &&& self.servers@[j].round_results == old(self).servers@[j].round_results
                    },
            decreases n - i,
        {
            self.servers[i].start_round(round);
            i = i + 1;
        }
    }

    /// Process a request through the entire chain.
    /// Each server peels one layer and forwards to the next.
    /// The last server places the payload in the dead drop.
    ///
    /// A request wrapped for this chain's keys is delivered: its payload is
    /// exchanged at its dead drop on the last server, if that server has
    /// started a round.
    pub fn process_request_through_chain(&mut self, onion: &OnionRequest) -> (r: Result<
        ExchangeResult,
        ServerError,
    >)
        requires
            old(self).servers@.len() > 0,
            servers_wf(old(self).servers@),
        ensures
            final(self).servers@.len() == old(self).servers@.len(),
            servers_wf(final(self).servers@),
            forall|i: int|
                0 <= i < old(self).servers@.len() - 1 ==> #[trigger] final(self).servers@[i]
                    == old(self).servers@[i],
            chain_peeled(onion@, server_keys(old(self).servers@)) matches Err(e) ==> r == Err::<
                ExchangeResult,
                ServerError,
            >(e) && final(self).servers@ == old(self).servers@,
            chain_peeled(onion@, server_keys(old(self).servers@)) matches Ok(d) ==> chain_delivered(
                old(self).servers@.last(),
                final(self).servers@.last(),
                d,
                r,
            ),
            forall|dead_drop_id: Seq<u8>, payload: Seq<u8>|
                wraps(onion@, dead_drop_id, payload, server_keys(old(self).servers@))
                    && dead_drop_id.len() == 16 ==> #[trigger] chain_peeled(
                    onion@,
                    server_keys(old(self).servers@),
                ) == Ok::<Seq<u8>, ServerError>(dead_drop_id + payload),
    {
        let n = self.servers.len();
        let keys = self.public_keys();
        proof {
            assert(keys_view(keys@) =~= server_keys(self.servers@));
        }
        let data = match peel_chain(onion, keys.as_slice()) {
            Ok(d) => d,
            Err(e) => {
                return Err(e);
            },
        };
        let ghost pks = server_keys(self.servers@);
        // The last server places the payload in the dead drop:
        // the peeled data is the dead drop ID followed by the payload
        if data.len() < 16 {
            return Err(ServerError::InvalidRequest);
        }
        let dead_drop_id = crate::bytes::array16_from(data.as_slice(), 0);
        let payload = EncryptedMessage { data: copy_range(data.as_slice(), 16, data.len()) };
        proof {
            assert forall|dd: Seq<u8>, p: Seq<u8>|
                wraps(onion@, dd, p, pks) && dd.len() == 16 implies dead_drop_id@ == dd && payload@ == p by {
                assert(data@ == dd + p);
                assert(dead_drop_id@ =~= dd);
                assert(payload@ =~= p);
            }
        }
        let last = n - 1;
        let result = self.servers[last].place_in_dead_drop(dead_drop_id, payload);
        result
    }

    /// Add noise on all servers: server `i` places `counts[i].0` single and
    /// `counts[i].1` paired empty messages. Stops at the first server that has
    /// not started a round, or whose noise cannot be drawn.
    pub fn add_noise(&mut self, counts: &[(u64, u64)]) -> (r: Result<(), ServerError>)
        requires
            counts@.len() == old(self).servers@.len(),
            servers_wf(old(self).servers@),
            forall|i: int|
                0 <= i < old(self).servers@.len() && rounds_started_before(old(self).servers@, i) && ((
                #[trigger] old(self).servers@[i]).current_round matches Some(rs) && !rs.noise_added) && (
                counts@[i].0 > 0 || counts@[i].1 > 0) ==> old(self).servers@[i].num_dead_drops > 0,
        ensures
            final(self).servers@.len() == old(self).servers@.len(),
            servers_wf(final(self).servers@),
            r is Ok ==> rounds_started_before(old(self).servers@, old(self).servers@.len() as int),
            !rounds_started_before(old(self).servers@, old(self).servers@.len() as int) ==> r is Err,
            r == Err::<(), ServerError>(ServerError::RoundNotStarted) ==> !rounds_started_before(
                old(self).servers@,
                old(self).servers@.len() as int,
            ),
            r is Err ==> r == Err::<(), ServerError>(ServerError::RoundNotStarted) || (r matches Err(
                ServerError::RandomSourceFailed(_),
            )),
            rounds_started_before(old(self).servers@, old(self).servers@.len() as int) && (forall|i: int|
                0 <= i < counts@.len() ==> #[trigger] counts@[i] == (0u64, 0u64)) ==> r is Ok,
            forall|i: int|
                0 <= i < old(self).servers@.len() ==> (#[trigger] final(self).servers@[i]).public_key
                    == old(self).servers@[i].public_key,
            r is Ok ==> forall|i: int|
                0 <= i < old(self).servers@.len() ==> noise_added_to(
                    old(self).servers@[i],
                    #[trigger] final(self).servers@[i],
                    counts@[i].0,
                    counts@[i].1,
                ),
            r is Err ==> exists|k: int|
                0 <= k < old(self).servers@.len() && noised_up_to(old(self).servers@, final(self).servers@, counts@, k),
    {
        let n = self.servers.len();
        let mut i: usize = 0;
        while i < n
            invariant
                n == old(self).servers@.len(),
                n == counts@.len(),
                self.servers@.len() == n,
                i <= n,
                forall|j: int| i <= j < n ==> #[trigger] self.servers@[j] == old(self).servers@[j],
                forall|j: int| 0 <= j < i ==> (#[trigger] old(self).servers@[j]).current_round is Some,
                forall|j: int|
                    0 <= j < i ==> (#[trigger] self.servers@[j]).wf() && noise_added_to(
                        old(self).servers@[j],
                        self.servers@[j],
                        counts@[j].0,
                        counts@[j].1,
                    ),
                forall|j: int| 0 <= j < n ==> (#[trigger] self.servers@[j]).public_key == old(self).servers@[j].public_key,
                servers_wf(old(self).servers@),
                forall|j: int|
                    0 <= j < n && rounds_started_before(old(self).servers@, j) && ((
                    #[trigger] old(self).servers@[j]).current_round matches Some(rs) && !rs.noise_added) && (
                    counts@[j].0 > 0 || counts@[j].1 > 0) ==> old(self).servers@[j].num_dead_drops > 0,
            decreases n - i,
        {
            let (n1, n2) = counts[i];
            proof {
                assert(rounds_started_before(old(self).servers@, i as int));
                assert(self.servers@[i as int] == old(self).servers@[i as int]);
            }
            let res = self.servers[i].add_noise(n1, n2);
            match res {
                Ok(()) => {},
                Err(e) => {
                    proof {
                        assert(self.servers@[i as int] == old(self).servers@[i as int]);
                        assert(noised_up_to(old(self).servers@, self.servers@, counts@, i as int));
                    }
                    return Err(e);
                },
            }
            i = i + 1;
        }
        Ok(())
    }

    /// End the round on all servers: each records and clears its dead drops.
    /// Returns the number of accessed dead drops of each server. Stops at the
    /// first server that has not started a round.
    pub fn end_round(&mut self) -> (r: Result<Vec<usize>, ServerError>)
        requires
            servers_wf(old(self).servers@),
        ensures
            final(self).servers@.len() == old(self).servers@.len(),
            servers_wf(final(self).servers@),
            r is Ok <==> forall|i: int|
                0 <= i < old(self).servers@.len() ==> (#[trigger] old(self).servers@[i]).current_round is Some,
            r is Err ==> r == Err::<Vec<usize>, ServerError>(ServerError::RoundNotStarted),
            forall|i: int|
                0 <= i < old(self).servers@.len() ==> (#[trigger] final(self).servers@[i]).public_key
                    == old(self).servers@[i].public_key,
            r matches Ok(counts) ==> counts@.len() == old(self).servers@.len() && forall|i: int|
                0 <= i < counts@.len() ==> (old(self).servers@[i].current_round matches Some(rs)
                    && #[trigger] counts@[i] == rs.store.ids().len() && round_ended(
                    old(self).servers@[i],
                    final(self).servers@[i],
                )),
    {
        let n = self.servers.len();
        let mut results: Vec<usize> = Vec::new();
        let mut i: usize = 0;
        while i < n
            invariant
                n == old(self).servers@.len(),
                self.servers@.len() == n,
                i <= n,
                results@.len() == i,
                forall|j: int| i <= j < n ==> #[trigger] self.servers@[j] == old(self).servers@[j],
                forall|j: int| 0 <= j < i ==> (#[trigger] self.servers@[j]).wf(),
                forall|j: int|
                    0 <= j < i ==> ((#[trigger] old(self).servers@[j]).current_round matches Some(rs)
                        && results@[j] == rs.store.ids().len() && round_ended(old(self).servers@[j], self.servers@[j])),
                forall|j: int| 0 <= j < n ==> (#[trigger] self.servers@[j]).public_key == old(self).servers@[j].public_key,
                servers_wf(old(self).servers@),
            decreases n - i,
        {
            let res = self.servers[i].end_round();
            match res {
                Ok(count) => {
                    results.push(count);
                },
                Err(e) => {
                    return Err(e);
                },
            }
            i = i + 1;
        }
        Ok(results)
    }

    /// Get all server public keys in chain order.
    pub fn public_keys(&self) -> (r: Vec<PublicKey>)
        ensures
            r@.len() == self.servers@.len(),
            forall|i: int| 0 <= i < r@.len() ==> #[trigger] r@[i] == self.servers@[i].public_key,
    {
        let mut keys: Vec<PublicKey> = Vec::new();
        let mut i: usize = 0;
        while i < self.servers.len()
            invariant
                i <= self.servers@.len(),
                keys@.len() == i,
                forall|j: int| 0 <= j < i ==> #[trigger] keys@[j] == self.servers@[j].public_key,
            decreases self.servers@.len() - i,
        {
            keys.push(self.servers[i].public_key);
            i = i + 1;
        }
        keys
    }
}

/// What the last server did with the peeled `data` of a request, and what
/// the chain answered: too short to name a dead drop, `InvalidRequest`;
/// otherwise the exchange of the rest at the dead drop of its first 16 bytes
/// (`RoundNotStarted` if the server has no round).
pub open spec fn chain_delivered(
    before: Server,
    after: Server,
    data: Seq<u8>,
    r: Result<ExchangeResult, ServerError>,
) -> bool {
    if data.len() < 16 {
        r == Err::<ExchangeResult, ServerError>(ServerError::InvalidRequest) && after == before
    } else {
        match before.current_round {
            None => r == Err::<ExchangeResult, ServerError>(ServerError::RoundNotStarted) && after == before,
            Some(rs) => {
                &&& r matches Ok(res)
                &&& result_view(res) == exchange_answer(rs.store@, data.take(16))
                &&& after.current_round matches Some(nrs)
                &&& nrs.store@ == after_exchange(rs.store@, data.take(16), data.skip(16))
                &&& nrs.round == rs.round
                &&& nrs.num_dead_drops == rs.num_dead_drops
                &&& nrs.noise_added == rs.noise_added
                &&& same_setup(before, after)
                &&& after.round_results@ == before.round_results@
            },
        }
    }
}

/// Noise for `singles` and `pairs` is an empty message at `n1 + 2 * n2` dead
/// drops: one at the dead drop of each single index, then two at the dead
/// drop of each pair index.
pub proof fn law_noise_drops_shape(singles: Seq<u64>, pairs: Seq<u64>)
    ensures
        noise_drops(singles, pairs).len() == singles.len() + 2 * pairs.len(),
        forall|i: int| 0 <= i < singles.len() ==> #[trigger] noise_drops(singles, pairs)[i] == index_drop(singles[i]),
        forall|j: int|
            0 <= j < pairs.len() ==> #[trigger] noise_drops(singles, pairs)[singles.len() + 2 * j] == index_drop(
                pairs[j],
            ) && noise_drops(singles, pairs)[singles.len() + 2 * j + 1] == index_drop(pairs[j]),
{
    let s = singles.len() as int;
    assert forall|j: int| 0 <= j < pairs.len() implies #[trigger] noise_drops(singles, pairs)[s + 2 * j] == index_drop(
        pairs[j],
    ) && noise_drops(singles, pairs)[s + 2 * j + 1] == index_drop(pairs[j]) by {
        assert((s + 2 * j - s) / 2 == j);
        assert((s + 2 * j + 1 - s) / 2 == j);
    }
}

/// In servers linked as `ServerChain::new` links them, the last server, and
/// only it, has no next server.
pub proof fn law_only_last_server_is_last(servers: Seq<Server>)
    requires
        servers.len() <= usize::MAX,
        forall|i: int|
            0 <= i < servers.len() ==> (#[trigger] servers[i]).next_server_index == next_index(
                i as usize,
                servers.len() as usize,
            ),
    ensures
        forall|i: int|
            0 <= i < servers.len() ==> ((#[trigger] servers[i]).next_server_index is None <==> i == servers.len() - 1),
{
}

} // verus!
