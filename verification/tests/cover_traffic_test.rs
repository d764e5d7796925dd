use vuvuzela::dead_drop::{DeadDropStore, ExchangeResult};
use vuvuzela::onion::{generate_server_keypair, OnionError};
use vuvuzela::protocol::cover_traffic::{
    analyze_traffic, generate_multi_client_traffic, CoverTrafficError, CoverTrafficGenerator,
};
use vuvuzela::types::{Keypair, RoundNumber};

// Noise counts come from a Laplace distribution with mu = 10 (and mu / 2 = 5
// for pairs), sampled by the application; here they are fixed at the means.
const N1: u64 = 10;
const N2: u64 = 5;

fn setup_generator() -> CoverTrafficGenerator {
    let kp = Keypair::random().unwrap();
    let mut gen = CoverTrafficGenerator::new(kp);

    let s1_pk = generate_server_keypair().unwrap();
    let s2_pk = generate_server_keypair().unwrap();
    gen.set_servers(vec![s1_pk, s2_pk]);

    gen
}

#[test]
fn generate_single_noise_request() {
    let gen = setup_generator();
    let round = RoundNumber(1);

    let req = gen.generate_single_noise_request(round).unwrap();
    // The dead drop ID should be random (not all zeros)
    assert_ne!(req.dead_drop_id.0, [0u8; 16]);
    // The payload should not be empty (it's onion-wrapped)
    assert!(!req.payload.data.is_empty());
}

#[test]
fn generate_pair_noise_requests() {
    let gen = setup_generator();
    let round = RoundNumber(1);

    let (req1, req2) = gen.generate_pair_noise_requests(round).unwrap();

    // Both should target the same dead drop
    assert_eq!(req1.dead_drop_id, req2.dead_drop_id);

    // But have different payloads (different ephemeral keys)
    assert_ne!(req1.payload.data, req2.payload.data);
}

#[test]
fn generate_round_traffic() {
    let gen = setup_generator();
    let round = RoundNumber(1);

    let requests = gen.generate_round_traffic(round, N1, N2).unwrap();

    assert!(!requests.is_empty(), "expected at least some cover traffic requests");
}

#[test]
fn generate_and_place() {
    let gen = setup_generator();
    let mut store = DeadDropStore::new();
    let round = RoundNumber(1);

    let (n1, n2) = gen.generate_and_place(round, &mut store, N1, N2).unwrap();

    let total_expected = n1 + n2 * 2;
    assert!(total_expected > 0);

    let stats = analyze_traffic(&store, n1, n2);
    assert_eq!(stats.n1, n1);
    assert_eq!(stats.n2, n2);
}

#[test]
fn multi_client_traffic() {
    let gen1 = setup_generator();
    let gen2 = setup_generator();
    let gen3 = setup_generator();

    let mut store = DeadDropStore::new();
    let round = RoundNumber(1);

    let results = generate_multi_client_traffic(
        &[gen1, gen2, gen3],
        round,
        &mut store,
        &[(N1, N2), (N1, N2), (N1, N2)],
    )
    .unwrap();

    assert_eq!(results.len(), 3);

    // Each client should have generated some traffic
    for (n1, n2) in &results {
        assert!(*n1 > 0 || *n2 > 0);
    }
}

#[test]
fn traffic_stats() {
    let gen = setup_generator();
    let mut store = DeadDropStore::new();
    let round = RoundNumber(1);

    let (n1, n2) = gen.generate_and_place(round, &mut store, N1, N2).unwrap();
    let stats = analyze_traffic(&store, n1, n2);

    assert_eq!(stats.n1, n1);
    assert_eq!(stats.n2, n2);
    assert_eq!(stats.total_requests, n1 + n2 * 2);
}

#[test]
fn pair_requests_match_in_store() {
    let gen = setup_generator();
    let round = RoundNumber(1);

    // Generate a pair of requests
    let (req1, req2) = gen.generate_pair_noise_requests(round).unwrap();

    let mut store = DeadDropStore::new();

    // Place first request
    let result1 = store.exchange(req1);
    match result1 {
        ExchangeResult::NoPartner => {}
        _ => panic!("expected NoPartner for first request"),
    }

    // Place second request - should match
    let result2 = store.exchange(req2);
    match result2 {
        ExchangeResult::Success(_) => {}
        _ => panic!("expected Success for second request"),
    }
}

#[test]
fn round_traffic_has_exact_count_and_paired_layout() {
    let gen = setup_generator();
    let requests = gen.generate_round_traffic(RoundNumber(2), 3, 4).unwrap();
    assert_eq!(requests.len(), 3 + 2 * 4);
    for j in 0..4 {
        assert_eq!(requests[3 + 2 * j].dead_drop_id, requests[3 + 2 * j + 1].dead_drop_id);
    }
    // every payload is an encoded two-layer onion
    for req in &requests {
        assert_eq!(&req.payload.data[..8], &[2, 0, 0, 0, 0, 0, 0, 0]);
    }
}

#[test]
fn placing_counts_every_dead_drop_once() {
    let gen = setup_generator();
    let mut store = DeadDropStore::new();
    gen.generate_and_place(RoundNumber(1), &mut store, 6, 4).unwrap();
    // random dead drops: 6 singles and 4 pairs give 10 distinct dead drops
    assert_eq!(store.len(), 10);
    let stats = analyze_traffic(&store, 6, 4);
    assert_eq!(stats.single_accesses, 10);
    assert_eq!(stats.double_accesses, 0);
    assert_eq!(stats.total_requests, 14);
}

#[test]
fn no_traffic_without_counts() {
    let gen = CoverTrafficGenerator::new(Keypair::random().unwrap());
    assert!(gen.generate_round_traffic(RoundNumber(1), 0, 0).unwrap().is_empty());
    let mut store = DeadDropStore::new();
    assert_eq!(gen.generate_and_place(RoundNumber(1), &mut store, 0, 0), Ok((0, 0)));
    assert!(store.is_empty());
}

#[test]
fn noise_without_servers_fails() {
    let gen = CoverTrafficGenerator::new(Keypair::random().unwrap());
    let expected = CoverTrafficError::OnionError(OnionError::InvalidLayer);
    assert_eq!(gen.generate_single_noise_request(RoundNumber(1)).err(), Some(expected));
    assert_eq!(gen.generate_pair_noise_requests(RoundNumber(1)).err(), Some(expected));
    assert_eq!(gen.generate_round_traffic(RoundNumber(1), 1, 0).err(), Some(expected));
    let mut store = DeadDropStore::new();
    assert_eq!(gen.generate_and_place(RoundNumber(1), &mut store, 0, 1), Err(expected));
    assert!(store.is_empty());
    assert_eq!(expected.message(), "onion wrapping failed");
}

#[test]
fn multi_client_traffic_stops_at_a_failing_generator() {
    let good = setup_generator();
    let bad = CoverTrafficGenerator::new(Keypair::random().unwrap());
    let mut store = DeadDropStore::new();
    let r = generate_multi_client_traffic(&[good, bad], RoundNumber(1), &mut store, &[(2, 0), (1, 0)]);
    assert_eq!(r, Err(CoverTrafficError::OnionError(OnionError::InvalidLayer)));
    assert_eq!(store.len(), 2);
}

#[test]
fn random_source_failure_has_its_own_message() {
    assert_eq!(CoverTrafficError::RandomSourceFailed.message(), "random source failed");
}
