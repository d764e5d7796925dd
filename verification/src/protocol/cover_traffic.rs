//! Cover traffic: noise requests that mask real conversation traffic.
//!
//! Two kinds of noise are placed into the dead drops each round:
//! - single-access noise (`n1` requests): one request to a random dead drop;
//! - pair-access noise (`n2` pairs): two requests to one random dead drop,
//!   like a conversation that carries nothing.
//!
//! How many of each a client sends is drawn from a truncated Laplace
//! distribution; the counts are handed to this module as plain numbers.
use crate::bytes::zeros;
use crate::codec::request_bytes;
use crate::crypto::CryptoError;
use crate::dead_drop::{after_exchange, DeadDropStore, ExchangeRequest};
use crate::onion::{keys_view, wrap_onion, wraps, OnionError};
use crate::codec::encode_request;
use crate::primitives::{DrawFailure, SEAL_LIMIT};
use crate::types::{DeadDropId, EncryptedMessage, Keypair, PublicKey, RoundNumber, MESSAGE_SIZE};
use vstd::prelude::*;

verus! {

/// Errors from cover traffic operations.
#[derive(Clone, Copy, Debug, PartialEq, Eq)]
pub enum CoverTrafficError {
    OnionError(OnionError),
    CryptoError(CryptoError),
    /// The operating system's random source failed, as a caller reports it.
    RandomSourceFailed,
    /// The operating system's random source failed while a dead drop was
    /// drawn, with the source's failure.
    DrawFailed(DrawFailure),
}

impl CoverTrafficError {
    /// The error's description.
    pub fn message(&self) -> (r: String)
        ensures
            r@ == cover_traffic_error_text(*self),
    {
        match self {
            CoverTrafficError::OnionError(_) => "onion wrapping failed".to_string(),
            CoverTrafficError::CryptoError(_) => "crypto error".to_string(),
            CoverTrafficError::RandomSourceFailed => "random source failed".to_string(),
            CoverTrafficError::DrawFailed(_) => "random source failed".to_string(),
        }
    }
}

/// The description of a cover traffic error.
pub open spec fn cover_traffic_error_text(e: CoverTrafficError) -> Seq<char> {
    match e {
        CoverTrafficError::OnionError(_) => "onion wrapping failed"@,
        CoverTrafficError::CryptoError(_) => "crypto error"@,
        CoverTrafficError::RandomSourceFailed => "random source failed"@,
        CoverTrafficError::DrawFailed(_) => "random source failed"@,
    }
}

/// What noise through `n` servers can fail with: with no server, there is no
/// onion; a failure of the random source, carried in the error, while a dead
/// drop or an ephemeral key is drawn; or an onion too long to seal.
pub open spec fn noise_error(e: CoverTrafficError, n: nat) -> bool {
    ||| n == 0 && e == CoverTrafficError::OnionError(OnionError::InvalidLayer)
    ||| e is DrawFailed
    ||| e matches CoverTrafficError::OnionError(OnionError::RandomSourceFailed(_))
    ||| e == CoverTrafficError::OnionError(OnionError::EncryptionFailed) && 16 + MESSAGE_SIZE + 56 * n > SEAL_LIMIT
}

/// A noise request through the servers `pks`: the empty message, onion-wrapped
/// for the request's dead drop, carried as the encoded onion.
pub open spec fn noise_request(req: ExchangeRequest, pks: Seq<Seq<u8>>) -> bool {
    exists|layers: Seq<(Seq<u8>, Seq<u8>)>|
        #[trigger] wraps(layers, req.dead_drop_id@, zeros(MESSAGE_SIZE as nat), pks)
            && req.payload@ == request_bytes(layers)
}

/// A round's noise: `n1` noise requests, then `n2` pairs of noise requests
/// where both requests of a pair go to one dead drop.
pub open spec fn noise_batch(reqs: Seq<ExchangeRequest>, n1: u64, n2: u64, pks: Seq<Seq<u8>>) -> bool {
    &&& reqs.len() == n1 + 2 * n2
    &&& forall|i: int| 0 <= i < reqs.len() ==> noise_request(#[trigger] reqs[i], pks)
    &&& forall|j: int|
        0 <= j < n2 ==> (#[trigger] reqs[n1 + 2 * j]).dead_drop_id == reqs[n1 + 2 * j + 1].dead_drop_id
}

/// The store after the requests are exchanged one after another, in order.
pub open spec fn exchanged_all(store: Map<Seq<u8>, Seq<u8>>, reqs: Seq<ExchangeRequest>) -> Map<
    Seq<u8>,
    Seq<u8>,
>
    decreases reqs.len(),
{
    if reqs.len() == 0 {
        store
    } else {
        after_exchange(exchanged_all(store, reqs.drop_last()), reqs.last().dead_drop_id@, reqs.last().payload@)
    }
}

/// Exchanging two lists of requests one after the other is exchanging their
/// concatenation.
pub proof fn lemma_exchanged_all_append(
    store: Map<Seq<u8>, Seq<u8>>,
    a: Seq<ExchangeRequest>,
    b: Seq<ExchangeRequest>,
)
    ensures
        exchanged_all(store, a + b) == exchanged_all(exchanged_all(store, a), b),
    decreases b.len(),
{
    if b.len() == 0 {
        assert(a + b =~= a);
    } else {
        lemma_exchanged_all_append(store, a, b.drop_last());
        assert((a + b).drop_last() =~= a + b.drop_last());
        assert((a + b).last() == b.last());
    }
}

/// A cover traffic generator for a single client.
pub struct CoverTrafficGenerator {
    /// The client's keypair.
    pub keypair: Keypair,
    /// Server public keys for onion wrapping.
    pub server_pks: Vec<PublicKey>,
}

impl CoverTrafficGenerator {
    /// Create a new cover traffic generator with no servers.
    pub fn new(keypair: Keypair) -> (r: Self)
        ensures
            r.keypair == keypair,
            r.server_pks@.len() == 0,
    {
        CoverTrafficGenerator { keypair, server_pks: Vec::new() }
    }

    /// Set the server public keys for onion wrapping.
    pub fn set_servers(&mut self, server_pks: Vec<PublicKey>)
        ensures
            final(self).server_pks@ == server_pks@,
            final(self).keypair == old(self).keypair,
    {
        self.server_pks = server_pks;
    }

    /// The empty message, onion-wrapped for dead drop `dead_drop_id` through the
    /// servers, as an exchange request carrying the encoded onion.
    fn noise_for(&self, dead_drop_id: DeadDropId) -> (r: Result<ExchangeRequest, CoverTrafficError>)
        ensures
            self.server_pks@.len() == 0 <==> r == Err::<ExchangeRequest, CoverTrafficError>(
                CoverTrafficError::OnionError(OnionError::InvalidLayer),
            ),
            r matches Ok(req) ==> req.dead_drop_id == dead_drop_id && noise_request(req, keys_view(self.server_pks@)),
            r matches Err(e) ==> noise_error(e, self.server_pks@.len()) && !(e is DrawFailed),
    {
        let noise_payload = EncryptedMessage::empty();
        match wrap_onion(dead_drop_id.0, &noise_payload, self.server_pks.as_slice()) {
            Ok(onion) => {
                let serialized = encode_request(&onion);
                let req = ExchangeRequest { dead_drop_id, payload: EncryptedMessage { data: serialized } };
                proof {
                    assert(wraps(onion@, req.dead_drop_id@, zeros(MESSAGE_SIZE as nat), keys_view(self.server_pks@)));
                }
                Ok(req)
            },
            Err(e) => Err(CoverTrafficError::OnionError(e)),
        }
    }

    /// Generate a single noise request targeting a random dead drop.
    /// The request is onion-wrapped through the server chain. Where no random
    /// dead drop can be drawn, the error carries the random source's failure
    /// (`DrawFailed`).
    pub fn generate_single_noise_request(&self, _round: RoundNumber) -> (r: Result<
        ExchangeRequest,
        CoverTrafficError,
    >)
        ensures
            r matches Ok(req) ==> self.server_pks@.len() > 0 && noise_request(req, keys_view(self.server_pks@)),
            self.server_pks@.len() == 0 ==> r is Err,
            r matches Err(e) ==> noise_error(e, self.server_pks@.len()),
    {
        let dead_drop_id = match DeadDropId::random() {
            Ok(id) => id,
            Err(failure) => {
                return Err(CoverTrafficError::DrawFailed(failure));
            },
        };
        self.noise_for(dead_drop_id)
    }

    /// Generate a pair of noise requests targeting the same random dead drop.
    /// This simulates a conversation that goes nowhere (both sides send, but
    /// there's no real content).
    pub fn generate_pair_noise_requests(&self, _round: RoundNumber) -> (r: Result<
        (ExchangeRequest, ExchangeRequest),
        CoverTrafficError,
    >)
        ensures
            self.server_pks@.len() == 0 ==> r is Err,
            r matches Err(e) ==> noise_error(e, self.server_pks@.len()),
            r matches Ok(p) ==> p.0.dead_drop_id == p.1.dead_drop_id && noise_request(
                p.0,
                keys_view(self.server_pks@),
            ) && noise_request(p.1, keys_view(self.server_pks@)),
    {
        let dead_drop_id = match DeadDropId::random() {
            Ok(id) => id,
            Err(failure) => {
                return Err(CoverTrafficError::DrawFailed(failure));
            },
        };
        let req1 = match self.noise_for(dead_drop_id) {
            Ok(req) => req,
            Err(e) => {
                return Err(e);
            },
        };
        let req2 = match self.noise_for(dead_drop_id) {
            Ok(req) => req,
            Err(e) => {
                return Err(e);
            },
        };
        Ok((req1, req2))
    }

    /// Generate all cover traffic for a round: `n1` single-access noise
    /// requests, then `n2` pairs of pair-access noise requests.
    pub fn generate_round_traffic(&self, round: RoundNumber, n1: u64, n2: u64) -> (r: Result<
        Vec<ExchangeRequest>,
        CoverTrafficError,
    >)
        ensures
            r matches Ok(reqs) ==> noise_batch(reqs@, n1, n2, keys_view(self.server_pks@)),
            n1 + n2 == 0 ==> r is Ok,
            n1 + n2 > 0 && self.server_pks@.len() == 0 ==> r is Err,
            r matches Err(e) ==> n1 + n2 > 0 && noise_error(e, self.server_pks@.len()),
    {
        let ghost pks = keys_view(self.server_pks@);
        let mut requests: Vec<ExchangeRequest> = Vec::new();
        // Generate n1 single-access noise requests
        let mut k: u64 = 0;
        while k < n1
            invariant
                k <= n1,
                self.server_pks@.len() == 0 ==> k == 0,
                pks == keys_view(self.server_pks@),
                requests@.len() == k,
                forall|i: int| 0 <= i < requests@.len() ==> noise_request(#[trigger] requests@[i], pks),
            decreases n1 - k,
        {
            match self.generate_single_noise_request(round) {
                Ok(req) => {
                    requests.push(req);
                },
                Err(e) => {
                    return Err(e);
                },
            }
            k = k + 1;
        }
        // Generate n2 pair-access noise requests
        let mut k: u64 = 0;
        while k < n2
            invariant
                k <= n2,
                self.server_pks@.len() == 0 ==> n1 == 0 && k == 0,
                pks == keys_view(self.server_pks@),
                requests@.len() == n1 + 2 * k,
                forall|i: int| 0 <= i < requests@.len() ==> noise_request(#[trigger] requests@[i], pks),
                forall|j: int|
                    0 <= j < k ==> (#[trigger] requests@[n1 + 2 * j]).dead_drop_id == requests@[n1 + 2 * j
                        + 1].dead_drop_id,
            decreases n2 - k,
        {
            match self.generate_pair_noise_requests(round) {
                Ok((req1, req2)) => {
                    let ghost before = requests@;
                    requests.push(req1);
                    requests.push(req2);
                    proof {
                        assert forall|j: int| 0 <= j < k + 1 implies (#[trigger] requests@[n1 + 2
                            * j]).dead_drop_id == requests@[n1 + 2 * j + 1].dead_drop_id by {
                            if j < k {
                                assert(before[n1 + 2 * j].dead_drop_id == before[n1 + 2 * j + 1].dead_drop_id);
                            }
                        }
                    }
                },
                Err(e) => {
                    return Err(e);
                },
            }
            k = k + 1;
        }
        Ok(requests)
    }

    /// Generate cover traffic and place it directly into the dead drop store,
    /// exchanging the requests in the order they were generated. Returns the
    /// numbers of single-access and pair-access requests placed; on an error
    /// the store is left as it was.
    pub fn generate_and_place(&self, round: RoundNumber, store: &mut DeadDropStore, n1: u64, n2: u64) -> (r:
        Result<(u64, u64), CoverTrafficError>)
        requires
            old(store).wf(),
        ensures
            final(store).wf(),
            r is Ok ==> r == Ok::<(u64, u64), CoverTrafficError>((n1, n2)) && exists|reqs: Seq<ExchangeRequest>|
                noise_batch(reqs, n1, n2, keys_view(self.server_pks@)) && final(store)@ == #[trigger] exchanged_all(
                    old(store)@,
                    reqs,
                ),
            r is Err ==> *final(store) == *old(store) && n1 + n2 > 0,
            r matches Err(e) ==> noise_error(e, self.server_pks@.len()),
            n1 + n2 == 0 ==> r is Ok,
            n1 + n2 > 0 && self.server_pks@.len() == 0 ==> r is Err,
    {
        let requests = match self.generate_round_traffic(round, n1, n2) {
            Ok(reqs) => reqs,
            Err(e) => {
                return Err(e);
            },
        };
        let ghost start = store@;
        let mut i: usize = 0;
        while i < requests.len()
            invariant
                i <= requests@.len(),
                store.wf(),
                store@ == exchanged_all(start, requests@.take(i as int)),
            decreases requests@.len() - i,
        {
            let req = ExchangeRequest {
                dead_drop_id: requests[i].dead_drop_id,
                payload: requests[i].payload.duplicate(),
            };
            store.exchange(req);
            proof {
                assert(requests@.take(i + 1).drop_last() =~= requests@.take(i as int));
            }
            i = i + 1;
        }
        proof {
            assert(requests@.take(requests@.len() as int) =~= requests@);
        }
        Ok((n1, n2))
    }
}

/// Generate cover traffic for multiple clients in a round: each generator, in
/// order, places its own noise with the counts given for it. Returns the counts
/// placed, one pair per generator.
pub fn generate_multi_client_traffic(
    generators: &[CoverTrafficGenerator],
    round: RoundNumber,
    store: &mut DeadDropStore,
    counts: &[(u64, u64)],
) -> (r: Result<Vec<(u64, u64)>, CoverTrafficError>)
    requires
        old(store).wf(),
        counts@.len() == generators@.len(),
    ensures
        final(store).wf(),
        r matches Ok(v) ==> v@ == counts@ && exists|batches: Seq<Seq<ExchangeRequest>>|
            batches.len() == generators@.len() && (forall|i: int|
                0 <= i < batches.len() ==> noise_batch(
                    #[trigger] batches[i],
                    counts@[i].0,
                    counts@[i].1,
                    keys_view(generators@[i].server_pks@),
                )) && final(store)@ == #[trigger] exchanged_all(old(store)@, batches.flatten_alt()),
        (forall|i: int| 0 <= i < generators@.len() ==> (#[trigger] counts@[i]).0 + counts@[i].1 == 0) ==> r is Ok,
        r is Err ==> exists|i: int| 0 <= i < generators@.len() && (#[trigger] counts@[i]).0 + counts@[i].1 > 0,
        r matches Err(e) ==> exists|i: int|
            0 <= i < generators@.len() && noise_error(e, (#[trigger] generators@[i]).server_pks@.len()),
{
    let ghost start = store@;
    let ghost mut batches: Seq<Seq<ExchangeRequest>> = Seq::empty();
    let mut results: Vec<(u64, u64)> = Vec::new();
    let mut g: usize = 0;
    while g < generators.len()
        invariant
            g <= generators@.len(),
            counts@.len() == generators@.len(),
            store.wf(),
            results@ == counts@.take(g as int),
            batches.len() == g,
            forall|i: int|
                0 <= i < g ==> noise_batch(
                    #[trigger] batches[i],
                    counts@[i].0,
                    counts@[i].1,
                    keys_view(generators@[i].server_pks@),
                ),
            store@ == exchanged_all(start, batches.flatten_alt()),
        decreases generators@.len() - g,
    {
        let (n1, n2) = counts[g];
        let ghost before = store@;
        match generators[g].generate_and_place(round, store, n1, n2) {
            Ok(placed) => {
                proof {
                    let reqs = choose|reqs: Seq<ExchangeRequest>|
                        noise_batch(reqs, n1, n2, keys_view(generators@[g as int].server_pks@))
                            && store@ == #[trigger] exchanged_all(before, reqs);
                    lemma_exchanged_all_append(start, batches.flatten_alt(), reqs);
                    let nb = batches.push(reqs);
                    assert(nb.drop_last() =~= batches);
                    assert(nb.flatten_alt() == batches.flatten_alt() + reqs);
                    batches = nb;
                }
                results.push(placed);
                proof {
                    assert(counts@.take(g + 1) =~= counts@.take(g as int).push(counts@[g as int]));
                }
            },
            Err(e) => {
                proof {
                    assert(counts@[g as int] == (n1, n2));
                }
                return Err(e);
            },
        }
        g = g + 1;
    }
    proof {
        assert(counts@.take(counts@.len() as int) =~= counts@);
    }
    Ok(results)
}

/// Statistics about cover traffic in a round.
#[derive(Clone, Copy, Debug)]
pub struct TrafficStats {
    /// Number of single-access noise requests.
    pub n1: u64,
    /// Number of pair-access noise requests.
    pub n2: u64,
    /// Total noise requests placed.
    pub total_requests: u64,
    /// Dead drops with single access (unmatched).
    pub single_accesses: usize,
    /// Dead drops with double access (matched pairs).
    pub double_accesses: usize,
}

/// Analyze the dead drop store to compute traffic statistics.
pub fn analyze_traffic(store: &DeadDropStore, n1: u64, n2: u64) -> (r: TrafficStats)
    requires
        store.wf(),
        n1 + 2 * n2 <= u64::MAX,
    ensures
        r.n1 == n1,
        r.n2 == n2,
        r.total_requests == n1 + 2 * n2,
        r.single_accesses == store.ids().len(),
        r.double_accesses == 0,
{
    TrafficStats {
        n1,
        n2,
        total_requests: n1 + n2 * 2,
        single_accesses: store.count_single_accesses(),
        double_accesses: store.count_double_accesses(),
    }
}

/// Every exchanged request's dead drop is accessed, and the last request's
/// message is what its dead drop holds.
pub proof fn law_exchanged_all_accessed(store: Map<Seq<u8>, Seq<u8>>, reqs: Seq<ExchangeRequest>)
    ensures
        forall|i: int| 0 <= i < reqs.len() ==> #[trigger] exchanged_all(store, reqs).contains_key(reqs[i].dead_drop_id@),
        reqs.len() > 0 ==> exchanged_all(store, reqs)[reqs.last().dead_drop_id@] == reqs.last().payload@,
    decreases reqs.len(),
{
    if reqs.len() > 0 {
        law_exchanged_all_accessed(store, reqs.drop_last());
        assert forall|i: int| 0 <= i < reqs.len() implies #[trigger] exchanged_all(store, reqs).contains_key(
            reqs[i].dead_drop_id@,
        ) by {
            if i < reqs.len() - 1 {
                assert(reqs.drop_last()[i] == reqs[i]);
            }
        }
    }
}

} // verus!
