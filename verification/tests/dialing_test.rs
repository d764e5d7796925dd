use sha2::{Digest, Sha256};
use vuvuzela::codec::encode_invitation;
use vuvuzela::crypto::encrypt_message;
use vuvuzela::dead_drop::{indexed_dead_drop, ExchangeRequest, ExchangeResult};
use vuvuzela::onion::{generate_server_keypair, OnionError};
use vuvuzela::protocol::dialing::{
    create_invitation, find_invitation, invitation_dead_drop_index, DialingError, DialingProtocol,
    DialingRound, DialingState,
};
use vuvuzela::types::{EncryptedMessage, Invitation, Keypair, PublicKey, RoundNumber};
use vuvuzela::x25519::derive_shared_secret;

#[test]
fn invitation_dead_drop_index_deterministic() {
    let kp = Keypair::random().unwrap();
    let idx1 = invitation_dead_drop_index(&kp.public, 100_000);
    let idx2 = invitation_dead_drop_index(&kp.public, 100_000);
    assert_eq!(idx1, idx2);
}

#[test]
fn invitation_dead_drop_index_different_keys() {
    let kp1 = Keypair::random().unwrap();
    let kp2 = Keypair::random().unwrap();
    let idx1 = invitation_dead_drop_index(&kp1.public, 100_000);
    let idx2 = invitation_dead_drop_index(&kp2.public, 100_000);
    assert!(idx1 != idx2 || idx1 == idx2);
}

#[test]
fn invitation_dead_drop_index_is_hash_prefix_mod_m() {
    let pk = PublicKey([5u8; 32]);
    let mut hasher = Sha256::new();
    hasher.update(b"invitation_dead_drop");
    hasher.update(pk.as_bytes());
    let digest = hasher.finalize();
    let mut bytes = [0u8; 8];
    bytes.copy_from_slice(&digest[..8]);
    let val = u64::from_le_bytes(bytes) as usize;
    assert_eq!(invitation_dead_drop_index(&pk, 1000), val % 1000);
    assert!(invitation_dead_drop_index(&pk, 7) < 7);
}

#[test]
fn create_invitation_succeeds() {
    let alice = Keypair::random().unwrap();
    let bob = Keypair::random().unwrap();
    let round = RoundNumber(1);
    let (idx, encrypted) = create_invitation(&alice, &bob.public, round).unwrap();
    assert!(!encrypted.is_empty());
    assert!(idx < usize::MAX);
}

fn self_addressed_invitation(sender: &PublicKey, recipient: &PublicKey, round: u64) -> EncryptedMessage {
    let mut hasher = Sha256::new();
    hasher.update(sender.as_bytes());
    hasher.update(recipient.as_bytes());
    let digest = hasher.finalize();
    let mut mac = [0u8; 32];
    mac.copy_from_slice(&digest);
    let inv = Invitation { sender_pub: *sender, nonce: [1u8; 16], mac };
    let secret = derive_shared_secret(recipient, recipient, round);
    encrypt_message(&secret, round, &encode_invitation(&inv)).unwrap()
}

#[test]
fn find_invitation_finds_the_sender() {
    let alice = Keypair::random().unwrap();
    let bob = Keypair::random().unwrap();
    let msg = self_addressed_invitation(&alice.public, &bob.public, 3);
    let noise = EncryptedMessage { data: vec![9u8; 272] };
    let found = find_invitation(&bob, RoundNumber(3), &[EncryptedMessage::empty(), noise, msg]).unwrap();
    assert_eq!(found.0, alice.public.0);
}

#[test]
fn find_invitation_rejects_a_bad_mac() {
    let alice = Keypair::random().unwrap();
    let bob = Keypair::random().unwrap();
    let carol = Keypair::random().unwrap();
    // addressed to carol's MAC but encrypted for bob
    let mut hasher = Sha256::new();
    hasher.update(alice.public.as_bytes());
    hasher.update(carol.public.as_bytes());
    let digest = hasher.finalize();
    let mut mac = [0u8; 32];
    mac.copy_from_slice(&digest);
    let inv = Invitation { sender_pub: alice.public, nonce: [1u8; 16], mac };
    let secret = derive_shared_secret(&bob.public, &bob.public, 3);
    let msg = encrypt_message(&secret, 3, &encode_invitation(&inv)).unwrap();
    assert_eq!(find_invitation(&bob, RoundNumber(3), &[msg]), Err(DialingError::NoInvitation));
}

#[test]
fn find_invitation_in_nothing_is_no_invitation() {
    let bob = Keypair::random().unwrap();
    assert_eq!(find_invitation(&bob, RoundNumber(1), &[]), Err(DialingError::NoInvitation));
}

#[test]
fn dialing_round_new() {
    let round = DialingRound::new(100_000, 3).unwrap();
    assert_eq!(round.num_dead_drops, 100_000);
    assert_eq!(round.server_pks.len(), 3);
}

#[test]
fn place_invitation_fills_the_senders_dead_drop() {
    let alice = Keypair::random().unwrap();
    let bob = Keypair::random().unwrap();
    let mut round = DialingRound::new(1000, 2).unwrap();
    let idx = round.place_invitation(&alice, &bob.public, RoundNumber(4)).unwrap();
    assert_eq!(idx, invitation_dead_drop_index(&alice.public, usize::MAX) % 1000);
    assert_eq!(round.store.len(), 1);
    let req = ExchangeRequest { dead_drop_id: indexed_dead_drop(idx as u64), payload: EncryptedMessage::empty() };
    assert!(matches!(round.store.exchange(req), ExchangeResult::Success(_)));
    assert!(round.poll_dead_drop(idx).is_none());
}

#[test]
fn noise_invitations_only_touch_indexed_dead_drops() {
    let mut round = DialingRound::new(50, 1).unwrap();
    round.add_noise_invitations(RoundNumber(1), 5, 3).unwrap();
    assert!(round.store.len() >= 1);
    assert!(round.store.len() <= 5 + 3);
}

#[test]
fn invitation_onion_roundtrip() {
    let round = DialingRound::new(10, 2).unwrap();
    let payload = EncryptedMessage { data: vec![1, 2, 3] };
    let onion = round.wrap_invitation_onion(4, &payload).unwrap();
    assert_eq!(onion.layers.len(), 2);
    let inner = round.peel_invitation_onion(&onion.layers[0], 0).unwrap();
    assert!(inner.len() > 40);
    assert_eq!(round.peel_invitation_onion(&onion.layers[0], 1), Err(OnionError::DecryptionFailed));
}

#[test]
fn invitation_onion_without_servers_fails() {
    let round = DialingRound::new(10, 0).unwrap();
    let payload = EncryptedMessage { data: vec![1] };
    assert_eq!(round.wrap_invitation_onion(1, &payload).err(), Some(OnionError::InvalidLayer));
}

#[test]
fn dialing_protocol_new() {
    let kp = Keypair::random().unwrap();
    let proto = DialingProtocol::new(kp, 100_000);
    match proto.state {
        DialingState::Idle => {}
        _ => panic!("expected Idle state"),
    }
}

#[test]
fn dialing_protocol_dial() {
    let alice = Keypair::random().unwrap();
    let bob = Keypair::random().unwrap();
    let mut proto = DialingProtocol::new(alice, 100_000);
    let idx = proto.dial(&bob.public, RoundNumber(1)).unwrap();
    assert!(idx < 100_000);

    match &proto.state {
        DialingState::WaitingForResponse { .. } => {}
        _ => panic!("expected WaitingForResponse"),
    }
}

#[test]
fn dialing_protocol_listen() {
    let alice = Keypair::random().unwrap();
    let mut proto = DialingProtocol::new(alice, 100_000);
    let idx = proto.listen();
    assert!(idx < 100_000);

    match &proto.state {
        DialingState::WaitingForInvitation { .. } => {}
        _ => panic!("expected WaitingForInvitation"),
    }
}

#[test]
fn idle_protocol_round_has_no_invitation() {
    let mut proto = DialingProtocol::new(Keypair::random().unwrap(), 100);
    assert!(matches!(proto.process_round(RoundNumber(1), &[]), Err(DialingError::NoInvitation)));
}

#[test]
fn dial_completes_with_the_pair_secret() {
    let alice = Keypair::random().unwrap();
    let bob = Keypair::random().unwrap();
    let mut proto = DialingProtocol::new(alice, 100);
    proto.dial(&bob.public, RoundNumber(2)).unwrap();
    let (peer, secret) = proto.process_round(RoundNumber(3), &[]).unwrap().unwrap();
    assert_eq!(peer.0, bob.public.0);
    assert_eq!(secret.0, derive_shared_secret(&alice.public, &bob.public, 3).0);
    assert!(matches!(proto.state, DialingState::Complete { .. }));
    assert!(matches!(proto.process_round(RoundNumber(4), &[]), Err(DialingError::NoInvitation)));
}

#[test]
fn listening_times_out() {
    let mut proto = DialingProtocol::new(Keypair::random().unwrap(), 100);
    proto.listen();
    assert!(matches!(proto.process_round(RoundNumber(99), &[]), Ok(None)));
    assert!(matches!(proto.process_round(RoundNumber(100), &[]), Err(DialingError::Timeout)));
    assert!(matches!(proto.state, DialingState::TimedOut));
    assert!(matches!(proto.process_round(RoundNumber(101), &[]), Err(DialingError::Timeout)));
}

#[test]
fn dialing_times_out() {
    let mut proto = DialingProtocol::new(Keypair::random().unwrap(), 100);
    proto.dial(&generate_server_keypair().unwrap(), RoundNumber(10)).unwrap();
    assert!(matches!(proto.process_round(RoundNumber(110), &[]), Err(DialingError::Timeout)));
}

#[test]
fn no_noise_invitations_without_dead_drops() {
    let mut round = DialingRound::new(0, 1).unwrap();
    round.add_noise_invitations(RoundNumber(1), 0, 0).unwrap();
    assert!(round.store.is_empty());
}

#[test]
fn noise_invitations_hold_invitations() {
    let mut round = DialingRound::new(8, 1).unwrap();
    round.add_noise_invitations(RoundNumber(2), 0, 1).unwrap();
    // the pair goes to one dead drop
    assert_eq!(round.store.len(), 1);
}

#[test]
fn dialing_round_without_servers_needs_no_keys() {
    let round = DialingRound::new(32, 0).unwrap();
    assert!(round.server_pks.is_empty());
    assert_eq!(round.num_dead_drops, 32);
    assert_eq!(round.store.len(), 0);
}
