//! In-memory dead drop store for one round: requests that name the same dead
//! drop are paired, and each gets the other's message.
use crate::bytes::{le_value, lemma_le_value_bound, lemma_le_value_injective, pow256, u64_le, u64_to_le_bytes, zeros};
use crate::types::{DeadDropId, EncryptedMessage};
use std::collections::HashMap;
use vstd::prelude::*;

verus! {

broadcast use vstd::std_specs::hash::group_hash_axioms;

/// An exchange request placed into a dead drop.
/// The store treats this as an opaque blob -- it does not decrypt or inspect it.
#[derive(Clone, Debug)]
pub struct ExchangeRequest {
    pub dead_drop_id: DeadDropId,
    pub payload: EncryptedMessage,
}

/// Result of a dead drop exchange.
#[derive(Clone, Debug)]
pub enum ExchangeResult {
    /// The exchange succeeded: the partner's message is returned.
    Success(EncryptedMessage),
    /// No partner accessed this dead drop in this round.
    NoPartner,
}

/// The result an exchange or a retrieval gives, over messages' bytes.
pub open spec fn result_view(r: ExchangeResult) -> Option<Seq<u8>> {
    match r {
        ExchangeResult::Success(m) => Some(m@),
        ExchangeResult::NoPartner => None,
    }
}

/// The store after a request for dead drop `id` carrying `payload` is exchanged:
/// the dead drop holds `payload`, whatever it held before.
pub open spec fn after_exchange(store: Map<Seq<u8>, Seq<u8>>, id: Seq<u8>, payload: Seq<u8>) -> Map<
    Seq<u8>,
    Seq<u8>,
> {
    store.insert(id, payload)
}

/// What a request for dead drop `id` is answered: the message the dead drop
/// holds, or nothing where no one has accessed it this round.
pub open spec fn exchange_answer(store: Map<Seq<u8>, Seq<u8>>, id: Seq<u8>) -> Option<Seq<u8>> {
    if store.contains_key(id) {
        Some(store[id])
    } else {
        None
    }
}

/// The key under which a dead drop is indexed: its bytes read as a
/// little-endian 128-bit number.
pub open spec fn drop_key(id: Seq<u8>) -> u128 {
    le_value(id) as u128
}

/// The requests that accessed one dead drop this round.
struct DropSlot {
    id: DeadDropId,
    requests: Vec<ExchangeRequest>,
}

/// In-memory dead drop store for a single round.
/// Each round gets a fresh store that is wiped when the round ends.
/// The store matches pairs of requests targeting the same dead drop ID.
pub struct DeadDropStore {
    /// The accessed dead drops, in the order of their first access.
    slots: Vec<DropSlot>,
    /// Where each accessed dead drop stands in `slots`, by `drop_key`.
    index: HashMap<u128, usize>,
}

impl View for DeadDropStore {
    /// Each accessed dead drop, mapped to the message it holds.
    type V = Map<Seq<u8>, Seq<u8>>;

    closed spec fn view(&self) -> Map<Seq<u8>, Seq<u8>> {
        Map::new(
            |id: Seq<u8>| id.len() == 16 && self.index@.contains_key(drop_key(id)),
            |id: Seq<u8>| self.slots@[self.index@[drop_key(id)] as int].requests@[0].payload@,
        )
    }
}

/// Compute the index key of a dead drop.
fn id_key(id: &DeadDropId) -> (r: u128)
    ensures
        r == drop_key(id@),
        r as nat == le_value(id@),
{
    let mut v: u128 = 0;
    let mut i: usize = 16;
    proof {
        assert(id@.subrange(16, 16) =~= Seq::<u8>::empty());
        assert(pow256(15) == 1329227995784915872903807060280344576nat) by {
            reveal_with_fuel(pow256, 16);
        }
    }
    while i > 0
        invariant
            i <= 16,
            id@.len() == 16,
            pow256(15) == 1329227995784915872903807060280344576nat,
            v as nat == le_value(id@.subrange(i as int, 16)),
        decreases i,
    {
        let ghost tail = id@.subrange(i as int, 16);
        i = i - 1;
        let b = id.0[i];
        let ghost s = id@.subrange(i as int, 16);
        proof {
            assert(s.drop_first() =~= tail);
            lemma_le_value_bound(tail);
            crate::bytes::lemma_pow256_monotone(tail.len(), 15);
            assert(b as nat + 256 * (v as nat) < 340282366920938463463374607431768211456nat) by (nonlinear_arith)
                requires
                    (v as nat) < 1329227995784915872903807060280344576nat,
                    b < 256,
            ;
        }
        v = (b as u128) + 256 * v;
    }
    assert(id@.subrange(0, 16) =~= id@);
    v
}

/// Distinct dead drops have distinct keys.
proof fn lemma_drop_key_injective(a: Seq<u8>, b: Seq<u8>)
    requires
        a.len() == 16,
        b.len() == 16,
        drop_key(a) == drop_key(b),
    ensures
        a == b,
{
    lemma_le_value_bound(a);
    lemma_le_value_bound(b);
    assert(pow256(16) == 340282366920938463463374607431768211456nat) by {
        reveal_with_fuel(pow256, 17);
    }
    lemma_le_value_injective(a, b);
}

impl DeadDropStore {
    /// The store's internal consistency: every accessed dead drop holds exactly
    /// one request, for itself, and the index finds each slot.
    pub closed spec fn wf(&self) -> bool {
        &&& forall|i: int|
            0 <= i < self.slots@.len() ==> {
                &&& (#[trigger] self.slots@[i]).requests@.len() == 1
                &&& self.slots@[i].requests@[0].dead_drop_id@ == self.slots@[i].id@
                &&& self.index@.contains_key(drop_key(self.slots@[i].id@))
                &&& self.index@[drop_key(self.slots@[i].id@)] == i
            }
        &&& forall|k: u128|
            #[trigger] self.index@.contains_key(k) ==> {
                &&& (self.index@[k] as int) < self.slots@.len()
                &&& drop_key(self.slots@[self.index@[k] as int].id@) == k
            }
    }

    /// The accessed dead drops, in the order of their first access this round.
    pub closed spec fn ids(&self) -> Seq<Seq<u8>> {
        self.slots@.map_values(|s: DropSlot| s.id@)
    }

    /// The accessed dead drops are exactly the store's domain, each listed once.
    pub proof fn lemma_ids_are_domain(&self)
        requires
            self.wf(),
        ensures
            self.ids().no_duplicates(),
            forall|id: Seq<u8>| #[trigger] self@.contains_key(id) <==> self.ids().contains(id),
    {
        assert forall|i: int, j: int|
            0 <= i < self.ids().len() && 0 <= j < self.ids().len() && i != j implies self.ids()[i]
            != self.ids()[j] by {
            let a = self.slots@[i];
            let b = self.slots@[j];
            assert(self.index@[drop_key(a.id@)] == i);
            assert(self.index@[drop_key(b.id@)] == j);
        }
        assert forall|id: Seq<u8>| #[trigger] self@.contains_key(id) implies self.ids().contains(id) by {
            let i = self.index@[drop_key(id)] as int;
            lemma_drop_key_injective(self.slots@[i].id@, id);
            assert(self.ids()[i] == id);
        }
        assert forall|id: Seq<u8>| self.ids().contains(id) implies #[trigger] self@.contains_key(id) by {
            let i = choose|i: int| 0 <= i < self.ids().len() && self.ids()[i] == id;
            assert(self.slots@[i].id@ == id);
        }
    }

    pub fn new() -> (r: Self)
        ensures
            r.wf(),
            r@ == Map::<Seq<u8>, Seq<u8>>::empty(),
            r.ids() == Seq::<Seq<u8>>::empty(),
    {
        let r = DeadDropStore { slots: Vec::new(), index: HashMap::new() };
        assert(r@ =~= Map::<Seq<u8>, Seq<u8>>::empty());
        assert(r.ids() =~= Seq::<Seq<u8>>::empty());
        r
    }

    /// Insert an exchange request into the store.
    /// Returns the partner's message if a matching request already exists for this dead drop.
    /// When a match is found, the stored request is replaced with the new one so that
    /// the first sender can later retrieve the response.
    pub fn exchange(&mut self, request: ExchangeRequest) -> (r: ExchangeResult)
        requires
            old(self).wf(),
        ensures
            final(self).wf(),
            final(self)@ == after_exchange(old(self)@, request.dead_drop_id@, request.payload@),
            result_view(r) == exchange_answer(old(self)@, request.dead_drop_id@),
            final(self).ids() == if old(self)@.contains_key(request.dead_drop_id@) {
                old(self).ids()
            } else {
                old(self).ids().push(request.dead_drop_id@)
            },
    {
        let id = request.dead_drop_id;
        let key = id_key(&id);
        let ghost old_store = *self;
        match self.index.get(&key) {
            None => {
                let pos = self.slots.len();
                let mut requests: Vec<ExchangeRequest> = Vec::new();
                requests.push(request);
                self.slots.push(DropSlot { id, requests });
                self.index.insert(key, pos);
                proof {
                    assert(!old_store@.contains_key(id@));
                    assert forall|i: int| 0 <= i < old_store.slots@.len() implies drop_key(
                        old_store.slots@[i].id@,
                    ) != key by {}
                    assert(self@ =~= old_store@.insert(id@, request.payload@)) by {
                        assert forall|d: Seq<u8>| #[trigger] self@.contains_key(d) && d != id@ implies
                            old_store@.contains_key(d) && self@[d] == old_store@[d] by {
                            if drop_key(d) == key {
                                lemma_drop_key_injective(d, id@);
                            }
                        }
                    }
                    assert(self.ids() =~= old_store.ids().push(id@));
                }
                ExchangeResult::NoPartner
            },
            Some(found) => {
                let pos = *found;
                proof {
                    lemma_drop_key_injective(old_store.slots@[pos as int].id@, id@);
                    assert(old_store@.contains_key(id@));
                }
                let mut slot = DropSlot { id, requests: Vec::new() };
                std::mem::swap(&mut slot, &mut self.slots[pos]);
                let partner = slot.requests.remove(0);
                slot.requests.push(ExchangeRequest { dead_drop_id: id, payload: request.payload });
                std::mem::swap(&mut slot, &mut self.slots[pos]);
                proof {
                    assert(self.slots@ =~= old_store.slots@.update(
                        pos as int,
                        self.slots@[pos as int],
                    ));
                    assert(self@ =~= old_store@.insert(id@, request.payload@)) by {
                        assert forall|d: Seq<u8>| #[trigger] self@.contains_key(d) && d != id@ implies
                            old_store@.contains_key(d) && self@[d] == old_store@[d] by {
                            if self.index@[drop_key(d)] == pos {
                                lemma_drop_key_injective(d, id@);
                            }
                        }
                    }
                    assert(self.ids() =~= old_store.ids());
                }
                ExchangeResult::Success(partner.payload)
            },
        }
    }

    /// Get the number of dead drops that have been accessed.
    pub fn len(&self) -> (r: usize)
        requires
            self.wf(),
        ensures
            r == self.ids().len(),
    {
        self.slots.len()
    }

    pub fn is_empty(&self) -> (r: bool)
        requires
            self.wf(),
        ensures
            r == (self.ids().len() == 0),
    {
        self.slots.len() == 0
    }

    /// Count dead drops accessed exactly once (m1 in Vuvuzela's notation).
    /// Every accessed dead drop holds exactly one request (an exchange replaces
    /// the stored request), so this is the number of accessed dead drops.
    pub fn count_single_accesses(&self) -> (r: usize)
        requires
            self.wf(),
        ensures
            r == self.ids().len(),
    {
        let mut count: usize = 0;
        let mut i: usize = 0;
        while i < self.slots.len()
            invariant
                self.wf(),
                i <= self.slots@.len(),
                count == i,
            decreases self.slots@.len() - i,
        {
            assert(self.slots@[i as int].requests@.len() == 1);
            if self.slots[i].requests.len() == 1 {
                count = count + 1;
            }
            i = i + 1;
        }
        count
    }

    /// Count dead drops accessed twice or more (m2 in Vuvuzela's notation).
    /// After exchange(), successful pairs are removed, so this counts unmatched pairs.
    pub fn count_double_accesses(&self) -> (r: usize)
        requires
            self.wf(),
        ensures
            r == 0,
    {
        let mut count: usize = 0;
        let mut i: usize = 0;
        while i < self.slots.len()
            invariant
                self.wf(),
                i <= self.slots@.len(),
                count == 0,
            decreases self.slots@.len() - i,
        {
            assert(self.slots@[i as int].requests@.len() == 1);
            if self.slots[i].requests.len() >= 2 {
                count = count + 1;
            }
            i = i + 1;
        }
        count
    }

    /// Retrieve a message from a dead drop without disturbing the store.
    /// Returns the stored message if one exists for this dead drop.
    pub fn retrieve(&mut self, dead_drop_id: DeadDropId) -> (r: ExchangeResult)
        requires
            old(self).wf(),
        ensures
            *final(self) == *old(self),
            result_view(r) == exchange_answer(old(self)@, dead_drop_id@),
    {
        let key = id_key(&dead_drop_id);
        match self.index.get(&key) {
            Some(found) => {
                let pos = *found;
                proof {
                    lemma_drop_key_injective(self.slots@[pos as int].id@, dead_drop_id@);
                }
                ExchangeResult::Success(self.slots[pos].requests[0].payload.duplicate())
            },
            None => ExchangeResult::NoPartner,
        }
    }

    /// Clear all dead drops (called at the end of a round).
    pub fn clear(&mut self)
        ensures
            final(self).wf(),
            final(self)@ == Map::<Seq<u8>, Seq<u8>>::empty(),
            final(self).ids() == Seq::<Seq<u8>>::empty(),
    {
        self.slots.clear();
        self.index.clear();
        assert(self@ =~= Map::<Seq<u8>, Seq<u8>>::empty());
        assert(self.ids() =~= Seq::<Seq<u8>>::empty());
    }
}

impl Default for DeadDropStore {
    fn default() -> (r: Self)
        ensures
            r.wf(),
            r@ == Map::<Seq<u8>, Seq<u8>>::empty(),
            r.ids() == Seq::<Seq<u8>>::empty(),
    {
        Self::new()
    }
}

/// The dead drop with index `idx`: the index's eight little-endian bytes, then
/// eight zero bytes.
pub open spec fn index_drop(idx: u64) -> Seq<u8> {
    u64_le(idx) + zeros(8)
}

/// The dead drop with index `idx`, as the servers and the dialing protocol
/// address dead drops by index.
pub fn indexed_dead_drop(idx: u64) -> (r: DeadDropId)
    ensures
        r@ == index_drop(idx),
{
    let idx_bytes = u64_to_le_bytes(idx);
    let mut bytes: [u8; 16] = [0u8; 16];
    let mut i: usize = 0;
    while i < 8
        invariant
            i <= 8,
            idx_bytes@ == u64_le(idx),
            idx_bytes@.len() == 8,
            bytes@.len() == 16,
            forall|j: int| 0 <= j < i ==> bytes@[j] == idx_bytes@[j],
            forall|j: int| i <= j < 16 ==> bytes@[j] == 0,
        decreases 8 - i,
    {
        bytes[i] = idx_bytes[i];
        i = i + 1;
    }
    assert(bytes@ =~= index_drop(idx));
    DeadDropId(bytes)
}

/// A random dead drop index below `num`, drawn from the operating system's
/// random source; the source's failure where it fails.
pub fn random_index(num: usize) -> (r: Result<u64, crate::primitives::DrawFailure>)
    requires
        num > 0,
    ensures
        r matches Ok(i) ==> i < num,
{
    match crate::primitives::random_u64() {
        Ok(x) => Ok(x % (num as u64)),
        Err(failure) => Err(failure),
    }
}

/// A second exchange on a dead drop is answered with the first exchange's
/// message; a retrieval after an exchange gives that exchange's message.
pub proof fn lemma_exchange_pairs(store: Map<Seq<u8>, Seq<u8>>, id: Seq<u8>, first: Seq<u8>)
    ensures
        exchange_answer(after_exchange(store, id, first), id) == Some(first),
{
}

/// An exchange at one dead drop does not change what any other dead drop answers.
pub proof fn lemma_exchange_other_drops(
    store: Map<Seq<u8>, Seq<u8>>,
    id: Seq<u8>,
    payload: Seq<u8>,
    other: Seq<u8>,
)
    requires
        other != id,
    ensures
        exchange_answer(after_exchange(store, id, payload), other) == exchange_answer(store, other),
{
}

/// A fresh or cleared store answers every request with no partner, so nothing
/// left from an earlier round reaches a later one.
pub proof fn lemma_cleared_store_has_no_partner(id: Seq<u8>)
    ensures
        exchange_answer(Map::<Seq<u8>, Seq<u8>>::empty(), id) is None,
{
}

} // verus!
