use vuvuzela::config::ServerConfig;
use vuvuzela::dead_drop::ExchangeResult;
use vuvuzela::onion::{generate_server_keypair, wrap_onion, OnionError};
use vuvuzela::server::{Server, ServerChain, ServerError};
use vuvuzela::types::{EncryptedMessage, RoundNumber};

// Noise counts come from a Laplace distribution sampled by the application;
// the library takes them as arguments, so they are fixed here.
const N1: u64 = 1000;
const N2: u64 = 500;

#[test]
fn server_new() {
    let config = ServerConfig::default();
    let server = Server::new(config);
    assert_eq!(server.index, 0);
    assert_eq!(server.num_dead_drops, 100_000);
}

#[test]
fn server_start_round() {
    let config = ServerConfig::default();
    let mut server = Server::new(config);
    server.start_round(RoundNumber(1));
    assert!(server.current_round.is_some());
    assert_eq!(server.current_round_number(), Some(RoundNumber(1)));
}

#[test]
fn server_process_request_without_round_fails() {
    let config = ServerConfig::default();
    let mut server = Server::new(config);

    // Create a dummy onion request
    let pk = generate_server_keypair().unwrap();
    let dead_drop_id = [1u8; 16];
    let payload = EncryptedMessage::empty();
    let _onion = wrap_onion(dead_drop_id, &payload, &[pk]).unwrap();

    // Should fail because no round started
    let result = server.place_in_dead_drop(dead_drop_id, payload);
    assert!(result.is_err());
}

#[test]
fn server_place_in_dead_drop() {
    let config = ServerConfig::default();
    let mut server = Server::new(config);
    server.start_round(RoundNumber(1));

    let dead_drop_id = [1u8; 16];
    let payload = EncryptedMessage::empty();
    let result = server.place_in_dead_drop(dead_drop_id, payload).unwrap();

    match result {
        ExchangeResult::NoPartner => {}
        _ => panic!("expected NoPartner"),
    }
}

#[test]
fn server_add_noise() {
    let config = ServerConfig::default();
    let mut server = Server::new(config);
    server.start_round(RoundNumber(1));

    server.add_noise(N1, N2).unwrap();
    assert!(server.current_round.as_ref().unwrap().noise_added);
}

#[test]
fn server_end_round() {
    let config = ServerConfig::default();
    let mut server = Server::new(config);
    server.start_round(RoundNumber(1));

    let exchanges = server.end_round().unwrap();
    assert_eq!(exchanges, 0);
}

#[test]
fn server_chain_new() {
    let chain = ServerChain::new(3, 100_000).unwrap();
    assert_eq!(chain.servers.len(), 3);
}

#[test]
fn server_chain_start_round() {
    let mut chain = ServerChain::new(3, 100_000).unwrap();
    chain.start_round(RoundNumber(1));
    for server in &chain.servers {
        assert_eq!(server.current_round_number(), Some(RoundNumber(1)));
    }
}

#[test]
fn server_chain_public_keys() {
    let chain = ServerChain::new(3, 100_000).unwrap();
    let pks = chain.public_keys();
    assert_eq!(pks.len(), 3);
    // All keys should be different
    assert_ne!(pks[0].0, pks[1].0);
    assert_ne!(pks[1].0, pks[2].0);
}

#[test]
fn server_chain_add_noise() {
    let mut chain = ServerChain::new(3, 100_000).unwrap();
    chain.start_round(RoundNumber(1));
    chain.add_noise(&[(N1, N2), (N1, N2), (N1, N2)]).unwrap();
    for server in &chain.servers {
        assert!(server.current_round.as_ref().unwrap().noise_added);
    }
}

#[test]
fn server_is_last_server() {
    let chain = ServerChain::new(3, 100_000).unwrap();
    assert!(!chain.servers[0].is_last_server());
    assert!(!chain.servers[1].is_last_server());
    assert!(chain.servers[2].is_last_server());
}

#[test]
fn server_chain_end_round() {
    let mut chain = ServerChain::new(3, 100_000).unwrap();
    chain.start_round(RoundNumber(1));
    let results = chain.end_round().unwrap();
    assert_eq!(results.len(), 3);
}

#[test]
fn server_with_keypair_knows_its_place() {
    let (server, kp) = Server::new_with_keypair(1, 3, 500).unwrap();
    assert_eq!(server.public_key.0, kp.public.0);
    assert_eq!(server.index, 1);
    assert_eq!(server.next_server_index, Some(2));
    let (last, _) = Server::new_with_keypair(2, 3, 500).unwrap();
    assert!(last.is_last_server());
}

#[test]
fn server_from_config_uses_configured_key() {
    let mut config = ServerConfig::default();
    config.public_key = vec![4u8; 32];
    config.num_servers = 2;
    let server = Server::new(config);
    assert_eq!(server.public_key.0, [4u8; 32]);
    assert_eq!(server.next_server_index, Some(1));
}

#[test]
fn noise_is_added_once_per_round() {
    let mut server = Server::new(ServerConfig::default());
    server.start_round(RoundNumber(1));
    server.add_noise(3, 2).unwrap();
    let first = server.pending_dead_drops();
    assert!(first >= 1 && first <= 5);
    server.add_noise(50, 50).unwrap();
    assert_eq!(server.pending_dead_drops(), first);
}

#[test]
fn noise_without_a_round_fails() {
    let mut server = Server::new(ServerConfig::default());
    assert_eq!(server.add_noise(1, 1), Err(ServerError::RoundNotStarted));
    assert_eq!(server.end_round(), Err(ServerError::RoundNotStarted));
    assert_eq!(server.pending_dead_drops(), 0);
}

#[test]
fn end_round_counts_and_clears() {
    let mut server = Server::new(ServerConfig::default());
    server.start_round(RoundNumber(7));
    server.place_in_dead_drop([1u8; 16], EncryptedMessage::empty()).unwrap();
    server.place_in_dead_drop([2u8; 16], EncryptedMessage::empty()).unwrap();
    assert_eq!(server.end_round(), Ok(2));
    assert_eq!(server.round_results.get(&7), Some(&2));
    assert_eq!(server.pending_dead_drops(), 0);
}

#[test]
fn process_request_peels_the_outer_layer() {
    let mut server = Server::new(ServerConfig::default());
    let payload = EncryptedMessage { data: b"inner".to_vec() };
    let onion = wrap_onion([6u8; 16], &payload, &[server.public_key]).unwrap();
    let peeled = server.process_request(&onion).unwrap();
    let mut expected = vec![6u8; 16];
    expected.extend_from_slice(b"inner");
    assert_eq!(peeled, expected);
}

#[test]
fn chain_delivers_and_pairs_requests() {
    let mut chain = ServerChain::new(3, 1000).unwrap();
    chain.start_round(RoundNumber(1));
    let pks = chain.public_keys();
    let first = wrap_onion([8u8; 16], &EncryptedMessage { data: b"one".to_vec() }, &pks).unwrap();
    let second = wrap_onion([8u8; 16], &EncryptedMessage { data: b"two".to_vec() }, &pks).unwrap();
    assert!(matches!(chain.process_request_through_chain(&first), Ok(ExchangeResult::NoPartner)));
    match chain.process_request_through_chain(&second) {
        Ok(ExchangeResult::Success(msg)) => assert_eq!(msg.data, b"one".to_vec()),
        _ => panic!("expected Success"),
    }
    assert_eq!(chain.servers[2].pending_dead_drops(), 1);
}

#[test]
fn chain_rejects_a_foreign_onion() {
    let mut chain = ServerChain::new(2, 1000).unwrap();
    chain.start_round(RoundNumber(1));
    let other = vec![generate_server_keypair().unwrap(), generate_server_keypair().unwrap()];
    let onion = wrap_onion([8u8; 16], &EncryptedMessage { data: b"x".to_vec() }, &other).unwrap();
    assert_eq!(
        chain.process_request_through_chain(&onion).err(),
        Some(ServerError::Onion(OnionError::DecryptionFailed))
    );
}

#[test]
fn chain_without_a_round_fails_at_the_last_server() {
    let mut chain = ServerChain::new(2, 1000).unwrap();
    let pks = chain.public_keys();
    let onion = wrap_onion([8u8; 16], &EncryptedMessage { data: b"x".to_vec() }, &pks).unwrap();
    assert_eq!(chain.process_request_through_chain(&onion).err(), Some(ServerError::RoundNotStarted));
    assert_eq!(chain.add_noise(&[(1, 1), (1, 1)]), Err(ServerError::RoundNotStarted));
}

#[test]
fn place_noise_places_each_index_in_order() {
    let mut server = Server::new(ServerConfig::default());
    assert_eq!(server.place_noise(&[1], &[]), Err(ServerError::RoundNotStarted));
    server.start_round(RoundNumber(1));
    server.place_noise(&[1, 2, 1], &[7, 8]).unwrap();
    // dead drops 1, 2, 7 and 8
    assert_eq!(server.pending_dead_drops(), 4);
    assert!(!server.current_round.as_ref().unwrap().noise_added);
    let result = server.place_in_dead_drop(vuvuzela::dead_drop::indexed_dead_drop(7).0, EncryptedMessage::empty());
    match result {
        Ok(ExchangeResult::Success(msg)) => assert!(msg.is_empty()),
        _ => panic!("expected Success"),
    }
}

#[test]
fn noise_without_dead_drops_needs_no_counts() {
    let mut config = ServerConfig::default();
    config.num_dead_drops = 0;
    let mut server = Server::new(config);
    assert_eq!(server.add_noise(0, 0), Err(ServerError::RoundNotStarted));
    server.start_round(RoundNumber(3));
    assert_eq!(server.add_noise(0, 0), Ok(()));
    assert!(server.current_round.as_ref().unwrap().noise_added);
    // a round that has its noise is left as it is, whatever the counts
    assert_eq!(server.add_noise(10, 10), Ok(()));
    assert_eq!(server.pending_dead_drops(), 0);
}

#[test]
fn server_noise_fills_at_most_the_drawn_dead_drops() {
    let mut config = ServerConfig::default();
    config.num_dead_drops = 4;
    let mut server = Server::new(config);
    server.start_round(RoundNumber(1));
    server.add_noise(20, 20).unwrap();
    let n = server.pending_dead_drops();
    assert!(n >= 1 && n <= 4);
}

#[test]
fn server_chain_zero_noise_counts_succeed() {
    let mut chain = ServerChain::new(2, 0).unwrap();
    assert_eq!(chain.add_noise(&[(0, 0), (0, 0)]), Err(ServerError::RoundNotStarted));
    chain.start_round(RoundNumber(4));
    assert_eq!(chain.add_noise(&[(0, 0), (0, 0)]), Ok(()));
    for server in &chain.servers {
        assert!(server.current_round.as_ref().unwrap().noise_added);
        assert_eq!(server.pending_dead_drops(), 0);
    }
}

#[test]
fn empty_chain_needs_no_keys() {
    let chain = ServerChain::new(0, 10).unwrap();
    assert!(chain.servers.is_empty());
}
