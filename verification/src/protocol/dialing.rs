//! Dialing protocol: invitations that start conversations.
//!
//! The dead drop index of a user's invitations is H(pk) mod m, where m is the
//! number of dead drops:
//!   1. Alice computes the dead drop of her invitations from her public key.
//!   2. Alice encrypts an invitation holding her public key and places it in
//!      that dead drop.
//!   3. Bob polls the dead drop of his own key each round.
//!   4. When Bob finds a valid invitation, he decrypts it and starts a
//!      conversation with Alice.
//!   5. Servers add noise invitations so that the adversary cannot tell real
//!      invitations from noise.
use crate::bytes::{append_bytes, bytes_eq, le_value, u64_from_le_bytes};
use crate::codec::{decode_invitation, decoded_invitation, encode_invitation, invitation_bytes};
use crate::crypto::{decrypt_message, decrypted_message, encrypt_message, encrypted_form};
use crate::dead_drop::{index_drop, indexed_dead_drop, random_index, DeadDropStore, ExchangeRequest};
use crate::onion::{keys_view, peel_layer, peeled, wrap_onion, wraps, OnionError, OnionLayer, OnionRequest};
use crate::primitives::{random_bytes_16, sha256, sha256_digest, DrawFailure, SEAL_LIMIT};
use crate::types::{all_zero, EncryptedMessage, Invitation, Keypair, PublicKey, RoundNumber, SharedSecret};
use crate::x25519::{derive_shared_secret, pair_secret};
use vstd::prelude::*;

verus! {

/// Errors from the dialing protocol.
#[derive(Clone, Debug, PartialEq, Eq)]
pub enum DialingError {
    NoInvitation,
    InvalidInvitation,
    Timeout,
    Crypto(String),
    /// The operating system's random source failed while a key, a nonce or a
    /// dead drop was drawn.
    RandomSourceFailed(DrawFailure),
}

/// The ASCII bytes of `invitation_dead_drop`.
pub open spec fn invitation_label() -> Seq<u8> {
    seq![
        105u8, 110u8, 118u8, 105u8, 116u8, 97u8, 116u8, 105u8, 111u8, 110u8, 95u8, 100u8, 101u8,
        97u8, 100u8, 95u8, 100u8, 114u8, 111u8, 112u8,
    ]
}

/// The dead drop index of `pk`'s invitations among `num_dead_drops` dead drops:
/// the first eight bytes of SHA-256(`invitation_dead_drop` || pk), read as a
/// little-endian number, modulo the number of dead drops.
pub open spec fn invitation_index(pk: Seq<u8>, num_dead_drops: usize) -> usize {
    ((le_value(sha256_digest(invitation_label() + pk).take(8)) as u64) as usize) % num_dead_drops
}

/// The MAC binding an invitation's sender to its recipient.
pub open spec fn invitation_mac(sender: Seq<u8>, recipient: Seq<u8>) -> Seq<u8> {
    sha256_digest(sender + recipient)
}

/// The sender key of a valid invitation for `recipient` in `data`, if any: the
/// message must not be all zeros, must decrypt under `secret`, must hold an
/// invitation, and the invitation's MAC must bind its sender to `recipient`.
pub open spec fn invitation_found(secret: Seq<u8>, round: u64, recipient: Seq<u8>, data: Seq<u8>) -> Option<
    Seq<u8>,
> {
    if all_zero(data) {
        None
    } else {
        match decrypted_message(secret, round, data) {
            Ok(plaintext) => match decoded_invitation(plaintext) {
                Some(inv) => if inv.2 == invitation_mac(inv.0, recipient) {
                    Some(inv.0)
                } else {
                    None
                },
                None => None,
            },
            Err(_) => None,
        }
    }
}

/// The messages a sender's invitation may be encrypted as: an encoded
/// invitation with any 16-byte nonce, under the pair's secret.
pub open spec fn is_invitation_for(
    m: Seq<u8>,
    sender: Seq<u8>,
    recipient: Seq<u8>,
    round: u64,
) -> bool {
    exists|nonce: Seq<u8>|
        nonce.len() == 16 && m == #[trigger] encrypted_form(
            pair_secret(sender, recipient, round),
            round,
            invitation_bytes(sender, nonce, invitation_mac(sender, recipient)),
        )
}

fn invitation_label_bytes() -> (r: Vec<u8>)
    ensures
        r@ == invitation_label(),
{
    let r: Vec<u8> = vec![
        105u8, 110u8, 118u8, 105u8, 116u8, 97u8, 116u8, 105u8, 111u8, 110u8, 95u8, 100u8, 101u8,
        97u8, 100u8, 95u8, 100u8, 114u8, 111u8, 112u8,
    ];
    assert(r@ =~= invitation_label());
    r
}

/// Compute which dead drop a user's invitations go to.
/// dead_drop_index = H(pk) mod num_dead_drops
pub fn invitation_dead_drop_index(pk: &PublicKey, num_dead_drops: usize) -> (r: usize)
    requires
        num_dead_drops > 0,
    ensures
        r == invitation_index(pk@, num_dead_drops),
        r < num_dead_drops,
{
    let mut input = invitation_label_bytes();
    append_bytes(&mut input, pk.as_bytes());
    let digest = sha256(input.as_slice());
    // Use first 8 bytes as a u64, then mod by num_dead_drops
    let val = u64_from_le_bytes(&digest, 0);
    proof {
        assert(digest@.subrange(0, 8) =~= digest@.take(8));
    }
    (val as usize) % num_dead_drops
}

/// The MAC of an invitation from `sender` to `recipient`.
fn compute_mac(sender: &PublicKey, recipient: &PublicKey) -> (r: [u8; 32])
    ensures
        r@ == invitation_mac(sender@, recipient@),
{
    let mut input: Vec<u8> = Vec::new();
    append_bytes(&mut input, sender.as_bytes());
    append_bytes(&mut input, recipient.as_bytes());
    sha256(input.as_slice())
}

/// Create an invitation to start a conversation with `recipient_pk`.
/// The invitation is encrypted so only the recipient can read it. Fails
/// (`RandomSourceFailed`, carrying the random source's failure) where no
/// random nonce can be drawn.
pub fn create_invitation(sender_kp: &Keypair, recipient_pk: &PublicKey, round: RoundNumber) -> (r: Result<
    (usize, EncryptedMessage),
    DialingError,
>)
    ensures
        r matches Ok(res) ==> res.0 == invitation_index(sender_kp.public@, usize::MAX) && is_invitation_for(
            res.1@,
            sender_kp.public@,
            recipient_pk@,
            round.0,
        ),
        r matches Err(e) ==> e matches DialingError::RandomSourceFailed(_),
{
    // The dead drop index is determined by the sender's public key
    let dead_drop_idx = invitation_dead_drop_index(&sender_kp.public, usize::MAX);
    // Create the invitation payload: sender's public key
    let invitation = Invitation {
        sender_pub: sender_kp.public,
        nonce: match random_bytes_16() {
            Ok(n) => n,
            Err(failure) => {
                return Err(DialingError::RandomSourceFailed(failure));
            },
        },
        mac: compute_mac(&sender_kp.public, recipient_pk),
    };
    let plaintext = encode_invitation(&invitation);
    // Derive a shared secret for encrypting the invitation
    let shared_secret = derive_shared_secret(&sender_kp.public, recipient_pk, round.0);
    // Encrypt the invitation
    let encrypted = match encrypt_message(&shared_secret, round.0, plaintext.as_slice()) {
        Ok(m) => m,
        Err(e) => {
            return Err(DialingError::Crypto(e.message()));
        },
    };
    proof {
        assert(invitation.nonce@.len() == 16);
    }
    Ok((dead_drop_idx, encrypted))
}

/// Try to find and decrypt an invitation intended for `recipient_kp` from
/// a list of encrypted messages in a dead drop. The messages are tried with
/// the secret the recipient derives from its own key and the round number;
/// the first valid invitation's sender is returned.
pub fn find_invitation(recipient_kp: &Keypair, round: RoundNumber, messages: &[EncryptedMessage]) -> (r: Result<
    PublicKey,
    DialingError,
>)
    ensures
        match r {
            Ok(pk) => exists|i: int|
                0 <= i < messages@.len() && invitation_found(
                    pair_secret(recipient_kp.public@, recipient_kp.public@, round.0),
                    round.0,
                    recipient_kp.public@,
                    messages@[i]@,
                ) == Some(pk@) && forall|j: int|
                    0 <= j < i ==> invitation_found(
                        pair_secret(recipient_kp.public@, recipient_kp.public@, round.0),
                        round.0,
                        recipient_kp.public@,
                        #[trigger] messages@[j]@,
                    ) is None,
            Err(e) => e == DialingError::NoInvitation && forall|i: int|
                0 <= i < messages@.len() ==> invitation_found(
                    pair_secret(recipient_kp.public@, recipient_kp.public@, round.0),
                    round.0,
                    recipient_kp.public@,
                    #[trigger] messages@[i]@,
                ) is None,
        },
{
    let ghost secret = pair_secret(recipient_kp.public@, recipient_kp.public@, round.0);
    let mut i: usize = 0;
    while i < messages.len()
        invariant
            i <= messages@.len(),
            secret == pair_secret(recipient_kp.public@, recipient_kp.public@, round.0),
            forall|j: int|
                0 <= j < i ==> invitation_found(secret, round.0, recipient_kp.public@, #[trigger] messages@[j]@)
                    is None,
        decreases messages@.len() - i,
    {
        let msg = &messages[i];
        if !msg.is_empty() {
            let shared_secret = derive_shared_secret(&recipient_kp.public, &recipient_kp.public, round.0);
            if let Ok(plaintext) = decrypt_message(&shared_secret, round.0, msg) {
                if let Some(invitation) = decode_invitation(plaintext.as_slice()) {
                    // Verify the MAC
                    let expected_mac = compute_mac(&invitation.sender_pub, &recipient_kp.public);
                    if bytes_eq(&invitation.mac, &expected_mac) {
                        return Ok(invitation.sender_pub);
                    }
                }
            }
        }
        i = i + 1;
    }
    Err(DialingError::NoInvitation)
}

/// A message holding an invitation between some two keys in a round.
pub open spec fn holds_invitation(m: Seq<u8>, round: u64) -> bool {
    exists|sender: Seq<u8>, recipient: Seq<u8>| #[trigger] is_invitation_for(m, sender, recipient, round)
}

/// The store after the (dead drop, message) pairs are placed one after
/// another, each replacing what its dead drop held.
pub open spec fn placed_all(store: Map<Seq<u8>, Seq<u8>>, placed: Seq<(Seq<u8>, Seq<u8>)>) -> Map<
    Seq<u8>,
    Seq<u8>,
>
    decreases placed.len(),
{
    if placed.len() == 0 {
        store
    } else {
        placed_all(store, placed.drop_last()).insert(placed.last().0, placed.last().1)
    }
}

/// A single noise invitation among `num` dead drops: an invitation of the
/// round from some sender, placed in that sender's invitation dead drop.
pub open spec fn single_noise_invitation(p: (Seq<u8>, Seq<u8>), num: usize, round: u64) -> bool {
    exists|sender: Seq<u8>, recipient: Seq<u8>|
        #[trigger] is_invitation_for(p.1, sender, recipient, round) && p.0 == index_drop(
            invitation_index(sender, num) as u64,
        )
}

/// A pair of noise invitations of the round, placed in one of the `num`
/// indexed dead drops.
pub open spec fn pair_noise_invitations(a: (Seq<u8>, Seq<u8>), b: (Seq<u8>, Seq<u8>), num: usize, round: u64) -> bool {
    &&& a.0 == b.0
    &&& exists|idx: u64| idx < num && a.0 == #[trigger] index_drop(idx)
    &&& holds_invitation(a.1, round)
    &&& holds_invitation(b.1, round)
}

/// A round's noise invitations, in the order they are placed: `n1` single
/// invitations, then `n2` pairs.
pub open spec fn noise_invitations(placed: Seq<(Seq<u8>, Seq<u8>)>, n1: int, n2: int, num: usize, round: u64) -> bool {
    &&& placed.len() == n1 + 2 * n2
    &&& forall|i: int| 0 <= i < n1 ==> single_noise_invitation(#[trigger] placed[i], num, round)
    &&& forall|j: int|
        0 <= j < n2 ==> pair_noise_invitations(#[trigger] placed[n1 + 2 * j], placed[n1 + 2 * j + 1], num, round)
}

/// A dialing round: clients place invitations, servers add noise.
pub struct DialingRound {
    /// The dead drop store for this round.
    pub store: DeadDropStore,
    /// Number of dead drops.
    pub num_dead_drops: usize,
    /// Server public keys for onion wrapping.
    pub server_pks: Vec<PublicKey>,
}

impl DialingRound {
    /// A dialing round with `num_servers` freshly generated server keys;
    /// the random source's failure where no key can be generated.
    pub fn new(num_dead_drops: usize, num_servers: usize) -> (r: Result<Self, DrawFailure>)
        ensures
            r matches Ok(d) ==> d.store.wf() && d.store@ == Map::<Seq<u8>, Seq<u8>>::empty()
                && d.num_dead_drops == num_dead_drops && d.server_pks@.len() == num_servers,
            num_servers == 0 ==> r is Ok,
    {
        let mut server_pks: Vec<PublicKey> = Vec::new();
        let mut i: usize = 0;
        while i < num_servers
            invariant
                i <= num_servers,
                server_pks@.len() == i,
            decreases num_servers - i,
        {
            match crate::onion::generate_server_keypair() {
                Ok(pk) => server_pks.push(pk),
                Err(failure) => {
                    return Err(failure);
                },
            }
            i = i + 1;
        }
        Ok(DialingRound { store: DeadDropStore::new(), num_dead_drops, server_pks })
    }

    /// Place an invitation into the appropriate dead drop.
    /// Returns the dead drop index.
    pub fn place_invitation(&mut self, sender_kp: &Keypair, recipient_pk: &PublicKey, round: RoundNumber) -> (r: Result<
        usize,
        DialingError,
    >)
        requires
            old(self).store.wf(),
            old(self).num_dead_drops > 0,
        ensures
            final(self).store.wf(),
            final(self).num_dead_drops == old(self).num_dead_drops,
            final(self).server_pks == old(self).server_pks,
            r matches Ok(idx) ==> idx == invitation_index(sender_kp.public@, usize::MAX)
                % old(self).num_dead_drops && exists|m: Seq<u8>|
                is_invitation_for(m, sender_kp.public@, recipient_pk@, round.0) && final(self).store@
                    == old(self).store@.insert(index_drop(idx as u64), m),
            r matches Err(e) ==> (e matches DialingError::RandomSourceFailed(_)) && final(self).store@ == old(
                self,
            ).store@,
    {
        let (dead_drop_idx, encrypted) = match create_invitation(sender_kp, recipient_pk, round) {
            Ok(res) => res,
            Err(e) => {
                return Err(e);
            },
        };
        // Map the dead drop index to the actual dead drop ID space
        let actual_idx = dead_drop_idx % self.num_dead_drops;
        let dead_drop_id = indexed_dead_drop(actual_idx as u64);
        let ghost m = encrypted@;
        self.store.exchange(ExchangeRequest { dead_drop_id, payload: encrypted });
        Ok(actual_idx)
    }

    /// Poll a dead drop for invitations. The store gives no read-only access
    /// by index, so this finds nothing.
    pub fn poll_dead_drop(&self, dead_drop_idx: usize) -> (r: Option<&EncryptedMessage>)
        requires
            self.num_dead_drops > 0,
        ensures
            r is None,
    {
        let actual_idx = dead_drop_idx % self.num_dead_drops;
        let _dead_drop_id = indexed_dead_drop(actual_idx as u64);
        None
    }

    /// Add noise invitations (called by servers): `n1` invitations between
    /// random keys, each in the invitation dead drop of its sender, and `n2`
    /// pairs of invitations in one random dead drop each. All invitations are
    /// made first; where the random source fails for any of them, nothing is
    /// placed and the error is returned.
    pub fn add_noise_invitations(&mut self, round: RoundNumber, n1: u64, n2: u64) -> (r: Result<(), DialingError>)
        requires
            old(self).store.wf(),
            n1 > 0 || n2 > 0 ==> old(self).num_dead_drops > 0,
        ensures
            final(self).store.wf(),
            final(self).num_dead_drops == old(self).num_dead_drops,
            final(self).server_pks == old(self).server_pks,
            r matches Err(e) ==> (e matches DialingError::RandomSourceFailed(_)) && final(self).store@ == old(
                self,
            ).store@
                && final(self).store.ids() == old(self).store.ids(),
            r is Ok ==> exists|placed: Seq<(Seq<u8>, Seq<u8>)>|
                #[trigger] noise_invitations(placed, n1 as int, n2 as int, old(self).num_dead_drops, round.0)
                    && final(self).store@ == placed_all(old(self).store@, placed),
            n1 == 0 && n2 == 0 ==> r is Ok,
    {
        let ghost num = self.num_dead_drops;
        let ghost mut placed: Seq<(Seq<u8>, Seq<u8>)> = Seq::empty();
        let mut planned: Vec<ExchangeRequest> = Vec::new();
        // Make the single-access noise (n1 invitations, each in its sender's dead drop)
        let mut k: u64 = 0;
        while k < n1
            invariant
                *self == *old(self),
                old(self).store.wf(),
                self.num_dead_drops == num,
                n1 > 0 ==> num > 0,
                k <= n1,
                placed.len() == k,
                planned@.len() == k,
                forall|i: int|
                    0 <= i < planned@.len() ==> placed[i] == ((#[trigger] planned@[i]).dead_drop_id@,
                    planned@[i].payload@),
                forall|i: int| 0 <= i < k ==> single_noise_invitation(#[trigger] placed[i], num, round.0),
            decreases n1 - k,
        {
            let fake_sender = match Keypair::random() {
                Ok(kp) => kp,
                Err(failure) => {
                    return Err(DialingError::RandomSourceFailed(failure));
                },
            };
            let fake_recipient = match Keypair::random() {
                Ok(kp) => kp,
                Err(failure) => {
                    return Err(DialingError::RandomSourceFailed(failure));
                },
            };
            let idx = invitation_dead_drop_index(&fake_sender.public, self.num_dead_drops);
            let dead_drop_id = indexed_dead_drop(idx as u64);
            let encrypted = match create_invitation(&fake_sender, &fake_recipient.public, round) {
                Ok((_, e)) => e,
                Err(e) => {
                    return Err(e);
                },
            };
            proof {
                assert(is_invitation_for(encrypted@, fake_sender.public@, fake_recipient.public@, round.0));
                let np = placed.push((dead_drop_id@, encrypted@));
                assert(np[k as int] == (dead_drop_id@, encrypted@));
                assert(idx == invitation_index(fake_sender.public@, num));
                assert(dead_drop_id@ == index_drop(invitation_index(fake_sender.public@, num) as u64));
                assert(is_invitation_for(np[k as int].1, fake_sender.public@, fake_recipient.public@, round.0)
                    && np[k as int].0 == index_drop(invitation_index(fake_sender.public@, num) as u64));
                assert(single_noise_invitation(np[k as int], num, round.0));
                placed = np;
            }
            planned.push(ExchangeRequest { dead_drop_id, payload: encrypted });
            k = k + 1;
        }
        // Make the pair-access noise (n2 pairs of invitations in one dead drop each)
        let mut k: u64 = 0;
        while k < n2
            invariant
                *self == *old(self),
                old(self).store.wf(),
                self.num_dead_drops == num,
                n2 > 0 ==> num > 0,
                k <= n2,
                placed.len() == n1 + 2 * k,
                planned@.len() == n1 + 2 * k,
                forall|i: int|
                    0 <= i < planned@.len() ==> placed[i] == ((#[trigger] planned@[i]).dead_drop_id@,
                    planned@[i].payload@),
                forall|i: int| 0 <= i < n1 ==> single_noise_invitation(#[trigger] placed[i], num, round.0),
                forall|j: int|
                    0 <= j < k ==> pair_noise_invitations(
                        #[trigger] placed[n1 + 2 * j],
                        placed[n1 + 2 * j + 1],
                        num,
                        round.0,
                    ),
            decreases n2 - k,
        {
            let idx = match random_index(self.num_dead_drops) {
                Ok(i) => i,
                Err(failure) => {
                    return Err(DialingError::RandomSourceFailed(failure));
                },
            };
            let dead_drop_id = indexed_dead_drop(idx);
            let fake_sender1 = match Keypair::random() {
                Ok(kp) => kp,
                Err(failure) => {
                    return Err(DialingError::RandomSourceFailed(failure));
                },
            };
            let fake_sender2 = match Keypair::random() {
                Ok(kp) => kp,
                Err(failure) => {
                    return Err(DialingError::RandomSourceFailed(failure));
                },
            };
            let fake_recipient = match Keypair::random() {
                Ok(kp) => kp,
                Err(failure) => {
                    return Err(DialingError::RandomSourceFailed(failure));
                },
            };
            let encrypted1 = match create_invitation(&fake_sender1, &fake_recipient.public, round) {
                Ok((_, e)) => e,
                Err(e) => {
                    return Err(e);
                },
            };
            let encrypted2 = match create_invitation(&fake_sender2, &fake_recipient.public, round) {
                Ok((_, e)) => e,
                Err(e) => {
                    return Err(e);
                },
            };
            proof {
                let before_pair = placed;
                assert(is_invitation_for(encrypted1@, fake_sender1.public@, fake_recipient.public@, round.0));
                assert(is_invitation_for(encrypted2@, fake_sender2.public@, fake_recipient.public@, round.0));
                assert(idx < num && dead_drop_id@ == index_drop(idx));
                placed = placed.push((dead_drop_id@, encrypted1@)).push((dead_drop_id@, encrypted2@));
                assert(pair_noise_invitations(placed[n1 + 2 * k], placed[n1 + 2 * k + 1], num, round.0));
                assert forall|j: int| 0 <= j < k + 1 implies pair_noise_invitations(
                    #[trigger] placed[n1 + 2 * j],
                    placed[n1 + 2 * j + 1],
                    num,
                    round.0,
                ) by {
                    if j < k {
                        assert(placed[n1 + 2 * j] == before_pair[n1 + 2 * j]);
                        assert(placed[n1 + 2 * j + 1] == before_pair[n1 + 2 * j + 1]);
                    }
                }
                assert forall|i: int| 0 <= i < n1 implies single_noise_invitation(#[trigger] placed[i], num, round.0) by {
                    assert(placed[i] == before_pair[i]);
                }
            }
            planned.push(ExchangeRequest { dead_drop_id, payload: encrypted1 });
            planned.push(ExchangeRequest { dead_drop_id, payload: encrypted2 });
            k = k + 1;
        }
        // Place every invitation, in order
        let ghost start = self.store@;
        let mut i: usize = 0;
        while i < planned.len()
            invariant
                i <= planned@.len(),
                planned@.len() == placed.len(),
                forall|i: int|
                    0 <= i < planned@.len() ==> placed[i] == ((#[trigger] planned@[i]).dead_drop_id@,
                    planned@[i].payload@),
                self.store.wf(),
                self.num_dead_drops == num,
                self.server_pks == old(self).server_pks,
                self.store@ == placed_all(start, placed.take(i as int)),
            decreases planned@.len() - i,
        {
            let req = ExchangeRequest {
                dead_drop_id: planned[i].dead_drop_id,
                payload: planned[i].payload.duplicate(),
            };
            self.store.exchange(req);
            proof {
                assert(placed.take(i + 1).drop_last() =~= placed.take(i as int));
                assert(placed.take(i + 1).last() == placed[i as int]);
            }
            i = i + 1;
        }
        proof {
            assert(placed.take(placed.len() as int) =~= placed);
            assert(noise_invitations(placed, n1 as int, n2 as int, num, round.0));
        }
        Ok(())
    }

    /// Wrap an invitation in onion layers for the server chain.
    pub fn wrap_invitation_onion(&self, dead_drop_idx: usize, payload: &EncryptedMessage) -> (r: Result<
        OnionRequest,
        OnionError,
    >)
        ensures
            self.server_pks@.len() == 0 <==> r == Err::<OnionRequest, OnionError>(
                OnionError::InvalidLayer,
            ),
            r matches Ok(req) ==> wraps(
                req@,
                index_drop(dead_drop_idx as u64),
                payload@,
                keys_view(self.server_pks@),
            ),
            r matches Err(e) ==> self.server_pks@.len() == 0 || e is RandomSourceFailed || (e
                == OnionError::EncryptionFailed && 16 + payload@.len() + 56 * self.server_pks@.len() > SEAL_LIMIT),
    {
        let dead_drop_id = indexed_dead_drop(dead_drop_idx as u64);
        wrap_onion(dead_drop_id.0, payload, self.server_pks.as_slice())
    }

    /// Peel one onion layer (called by each server).
    pub fn peel_invitation_onion(&self, layer: &OnionLayer, server_index: usize) -> (r: Result<
        Vec<u8>,
        OnionError,
    >)
        requires
            server_index < self.server_pks@.len(),
        ensures
            match r {
                Ok(p) => peeled(layer@, self.server_pks@[server_index as int]@) == Ok::<
                    Seq<u8>,
                    OnionError,
                >(p@),
                Err(e) => peeled(layer@, self.server_pks@[server_index as int]@) == Err::<
                    Seq<u8>,
                    OnionError,
                >(e),
            },
    {
        peel_layer(layer, &self.server_pks[server_index])
    }
}

/// States of the dialing protocol.
#[derive(Clone, Copy)]
pub enum DialingState {
    /// Not currently dialing.
    Idle,
    /// Waiting for an invitation from a specific peer.
    WaitingForInvitation {
        /// The dead drop index we're polling.
        dead_drop_idx: usize,
    },
    /// We sent an invitation and are waiting for the peer to respond.
    WaitingForResponse {
        /// The dead drop index where we placed our invitation.
        our_dead_drop_idx: usize,
        /// The peer's public key.
        peer_pk: PublicKey,
    },
    /// Dialing complete, conversation can begin.
    Complete {
        /// The peer's public key.
        peer_pk: PublicKey,
        /// Shared secret derived during dialing.
        shared_secret: SharedSecret,
    },
    /// Dialing timed out.
    TimedOut,
}

/// The dialing state in which the passage of rounds is counted.
pub open spec fn is_waiting(s: DialingState) -> bool {
    s is WaitingForInvitation || s is WaitingForResponse
}

/// State machine for the dialing protocol from a client's perspective.
pub struct DialingProtocol {
    /// Client's keypair.
    pub keypair: Keypair,
    /// Number of dead drops.
    pub num_dead_drops: usize,
    /// Current state.
    pub state: DialingState,
    /// Round when dialing started.
    pub start_round: RoundNumber,
    /// Maximum rounds to wait for a response.
    pub timeout_rounds: u64,
}

impl DialingProtocol {
    /// An idle dialing protocol that times out after 100 rounds.
    pub fn new(keypair: Keypair, num_dead_drops: usize) -> (r: Self)
        ensures
            r.keypair == keypair,
            r.num_dead_drops == num_dead_drops,
            r.state is Idle,
            r.start_round.0 == 0,
            r.timeout_rounds == 100,
    {
        DialingProtocol {
            keypair,
            num_dead_drops,
            state: DialingState::Idle,
            start_round: RoundNumber(0),
            timeout_rounds: 100,
        }
    }

    /// Start dialing: wait for `peer_pk`'s response from `round` on. Returns
    /// the dead drop index of our invitations.
    pub fn dial(&mut self, peer_pk: &PublicKey, round: RoundNumber) -> (r: Result<usize, DialingError>)
        requires
            old(self).num_dead_drops > 0,
        ensures
            r matches Ok(idx) && idx == invitation_index(old(self).keypair.public@, old(self).num_dead_drops),
            final(self).state == (DialingState::WaitingForResponse {
                our_dead_drop_idx: invitation_index(old(self).keypair.public@, old(self).num_dead_drops),
                peer_pk: *peer_pk,
            }),
            final(self).start_round == round,
            final(self).keypair == old(self).keypair,
            final(self).num_dead_drops == old(self).num_dead_drops,
            final(self).timeout_rounds == old(self).timeout_rounds,
    {
        let dead_drop_idx = invitation_dead_drop_index(&self.keypair.public, self.num_dead_drops);
        self.state = DialingState::WaitingForResponse { our_dead_drop_idx: dead_drop_idx, peer_pk: *peer_pk };
        self.start_round = round;
        Ok(dead_drop_idx)
    }

    /// Start listening for invitations. Returns the dead drop index polled.
    pub fn listen(&mut self) -> (r: usize)
        requires
            old(self).num_dead_drops > 0,
        ensures
            r == invitation_index(old(self).keypair.public@, old(self).num_dead_drops),
            r < old(self).num_dead_drops,
            final(self).state == (DialingState::WaitingForInvitation { dead_drop_idx: r }),
            final(self).start_round.0 == 0,
            final(self).keypair == old(self).keypair,
            final(self).num_dead_drops == old(self).num_dead_drops,
            final(self).timeout_rounds == old(self).timeout_rounds,
    {
        let dead_drop_idx = invitation_dead_drop_index(&self.keypair.public, self.num_dead_drops);
        self.state = DialingState::WaitingForInvitation { dead_drop_idx };
        self.start_round = RoundNumber(0);
        dead_drop_idx
    }

    /// Process a round: check for invitations or responses.
    /// Idle and completed protocols have nothing to find; a waiting one times
    /// out once `timeout_rounds` rounds have passed since it started; a peer we
    /// dialed is taken to have answered, and the conversation's secret is
    /// derived for this round.
    pub fn process_round(&mut self, round: RoundNumber, _messages: &[EncryptedMessage]) -> (r: Result<
        Option<(PublicKey, SharedSecret)>,
        DialingError,
    >)
        requires
            is_waiting(old(self).state) ==> old(self).start_round.0 <= round.0,
        ensures
            final(self).keypair == old(self).keypair,
            final(self).num_dead_drops == old(self).num_dead_drops,
            final(self).start_round == old(self).start_round,
            final(self).timeout_rounds == old(self).timeout_rounds,
            match old(self).state {
                DialingState::Idle => r == Err::<Option<(PublicKey, SharedSecret)>, DialingError>(
                    DialingError::NoInvitation,
                ) && final(self).state == old(self).state,
                DialingState::TimedOut => r == Err::<Option<(PublicKey, SharedSecret)>, DialingError>(
                    DialingError::Timeout,
                ) && final(self).state == old(self).state,
                DialingState::Complete { .. } => r == Err::<
                    Option<(PublicKey, SharedSecret)>,
                    DialingError,
                >(DialingError::NoInvitation) && final(self).state == old(self).state,
                DialingState::WaitingForInvitation { .. } => if round.0 - old(self).start_round.0
                    >= old(self).timeout_rounds {
                    r == Err::<Option<(PublicKey, SharedSecret)>, DialingError>(DialingError::Timeout)
                        && final(self).state is TimedOut
                } else {
                    r == Ok::<Option<(PublicKey, SharedSecret)>, DialingError>(None)
                        && final(self).state == old(self).state
                },
                DialingState::WaitingForResponse { peer_pk, .. } => if round.0 - old(
                    self,
                ).start_round.0 >= old(self).timeout_rounds {
                    r == Err::<Option<(PublicKey, SharedSecret)>, DialingError>(DialingError::Timeout)
                        && final(self).state is TimedOut
                } else {
                    r matches Ok(Some(done)) && done.0 == peer_pk && done.1@ == pair_secret(
                        old(self).keypair.public@,
                        peer_pk@,
                        round.0,
                    ) && final(self).state == (DialingState::Complete {
                        peer_pk: done.0,
                        shared_secret: done.1,
                    })
                },
            },
    {
        match self.state {
            DialingState::Idle => Err(DialingError::NoInvitation),
            DialingState::TimedOut => Err(DialingError::Timeout),
            DialingState::Complete { .. } => Err(DialingError::NoInvitation),
            DialingState::WaitingForInvitation { .. } => {
                // Check for timeout
                if round.0 - self.start_round.0 >= self.timeout_rounds {
                    self.state = DialingState::TimedOut;
                    return Err(DialingError::Timeout);
                }
                Ok(None)
            },
            DialingState::WaitingForResponse { peer_pk, .. } => {
                // Check for timeout
                if round.0 - self.start_round.0 >= self.timeout_rounds {
                    self.state = DialingState::TimedOut;
                    return Err(DialingError::Timeout);
                }
                // The peer is taken to have responded
                let shared_secret = derive_shared_secret(&self.keypair.public, &peer_pk, round.0);
                self.state = DialingState::Complete { peer_pk, shared_secret };
                Ok(Some((peer_pk, shared_secret)))
            },
        }
    }
}

/// Every placed invitation's dead drop is accessed, and the last placed
/// message is what its dead drop holds.
pub proof fn law_placed_all_accessed(store: Map<Seq<u8>, Seq<u8>>, placed: Seq<(Seq<u8>, Seq<u8>)>)
    ensures
        forall|i: int| 0 <= i < placed.len() ==> #[trigger] placed_all(store, placed).contains_key(placed[i].0),
        placed.len() > 0 ==> placed_all(store, placed)[placed.last().0] == placed.last().1,
    decreases placed.len(),
{
    if placed.len() > 0 {
        law_placed_all_accessed(store, placed.drop_last());
        assert forall|i: int| 0 <= i < placed.len() implies #[trigger] placed_all(store, placed).contains_key(
            placed[i].0,
        ) by {
            if i < placed.len() - 1 {
                assert(placed.drop_last()[i] == placed[i]);
            }
        }
    }
}

} // verus!
