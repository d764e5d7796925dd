use vuvuzela::dead_drop::{indexed_dead_drop, DeadDropStore, ExchangeRequest, ExchangeResult};
use vuvuzela::types::{DeadDropId, EncryptedMessage};

fn make_request(id: DeadDropId, data: Vec<u8>) -> ExchangeRequest {
    ExchangeRequest {
        dead_drop_id: id,
        payload: EncryptedMessage { data },
    }
}

#[test]
fn exchange_no_partner() {
    let mut store = DeadDropStore::new();
    let id = DeadDropId::random().unwrap();
    let req = make_request(id, vec![1, 2, 3]);
    let result = store.exchange(req);
    match result {
        ExchangeResult::NoPartner => {}
        _ => panic!("expected NoPartner"),
    }
    assert_eq!(store.len(), 1);
}

#[test]
fn exchange_with_partner() {
    let mut store = DeadDropStore::new();
    let id = DeadDropId::random().unwrap();
    let req1 = make_request(id, vec![1, 2, 3]);
    let req2 = make_request(id, vec![4, 5, 6]);

    let result1 = store.exchange(req1);
    match result1 {
        ExchangeResult::NoPartner => {}
        _ => panic!("expected NoPartner for first request"),
    }

    let result2 = store.exchange(req2);
    match result2 {
        ExchangeResult::Success(msg) => assert_eq!(msg.data, vec![1, 2, 3]),
        _ => panic!("expected Success for second request"),
    }
}

#[test]
fn exchange_different_dead_drops() {
    let mut store = DeadDropStore::new();
    let id1 = DeadDropId::random().unwrap();
    let id2 = DeadDropId::random().unwrap();

    let req1 = make_request(id1, vec![1]);
    let req2 = make_request(id2, vec![2]);

    let r1 = store.exchange(req1);
    let r2 = store.exchange(req2);

    match r1 {
        ExchangeResult::NoPartner => {}
        _ => panic!("expected NoPartner"),
    }
    match r2 {
        ExchangeResult::NoPartner => {}
        _ => panic!("expected NoPartner"),
    }
    assert_eq!(store.len(), 2);
}

#[test]
fn store_clear() {
    let mut store = DeadDropStore::new();
    let id = DeadDropId::random().unwrap();
    store.exchange(make_request(id, vec![1]));
    assert_eq!(store.len(), 1);
    store.clear();
    assert_eq!(store.len(), 0);
    assert!(store.is_empty());
}

#[test]
fn single_access_count() {
    let mut store = DeadDropStore::new();
    let id1 = DeadDropId::random().unwrap();
    let id2 = DeadDropId::random().unwrap();
    let id3 = DeadDropId::random().unwrap();

    // id1: single access
    store.exchange(make_request(id1, vec![1]));
    // id2: paired access (second client's message remains for first to retrieve)
    store.exchange(make_request(id2, vec![2]));
    store.exchange(make_request(id2, vec![3]));
    // id3: single access
    store.exchange(make_request(id3, vec![4]));

    // id1, id2 (second msg), id3 all have 1 entry
    assert_eq!(store.count_single_accesses(), 3);
    assert_eq!(store.count_double_accesses(), 0);
}

#[test]
fn many_exchanges() {
    let mut store = DeadDropStore::new();
    let n = 100;

    // Create n pairs
    for _ in 0..n {
        let id = DeadDropId::random().unwrap();
        let req1 = make_request(id, vec![1]);
        let req2 = make_request(id, vec![2]);
        store.exchange(req1);
        let result = store.exchange(req2);
        match result {
            ExchangeResult::Success(msg) => assert_eq!(msg.data, vec![1]),
            _ => panic!("expected Success"),
        }
    }

    // After exchange, each dead drop has 1 entry (second client's message)
    assert_eq!(store.len(), n);
    assert_eq!(store.count_single_accesses(), n);
}

#[test]
fn retrieve_after_exchange_gives_last_message() {
    let mut store = DeadDropStore::new();
    let id = DeadDropId([9u8; 16]);
    store.exchange(make_request(id, vec![1]));
    store.exchange(make_request(id, vec![2]));
    match store.retrieve(id) {
        ExchangeResult::Success(msg) => assert_eq!(msg.data, vec![2]),
        _ => panic!("expected Success"),
    }
    assert_eq!(store.len(), 1);
}

#[test]
fn retrieve_unaccessed_dead_drop_is_no_partner() {
    let mut store = DeadDropStore::new();
    store.exchange(make_request(DeadDropId([1u8; 16]), vec![1]));
    assert!(matches!(store.retrieve(DeadDropId([2u8; 16])), ExchangeResult::NoPartner));
}

#[test]
fn cleared_store_has_no_partner() {
    let mut store = DeadDropStore::new();
    let id = DeadDropId([5u8; 16]);
    store.exchange(make_request(id, vec![1]));
    store.clear();
    assert!(matches!(store.exchange(make_request(id, vec![2])), ExchangeResult::NoPartner));
}

#[test]
fn exchange_leaves_other_dead_drops_alone() {
    let mut store = DeadDropStore::new();
    let a = DeadDropId([1u8; 16]);
    let b = DeadDropId([2u8; 16]);
    store.exchange(make_request(a, vec![10]));
    store.exchange(make_request(b, vec![20]));
    match store.retrieve(a) {
        ExchangeResult::Success(msg) => assert_eq!(msg.data, vec![10]),
        _ => panic!("expected Success"),
    }
}

#[test]
fn dead_drops_differing_in_the_last_byte_are_distinct() {
    let mut store = DeadDropStore::default();
    let mut a = [0u8; 16];
    let mut b = [0u8; 16];
    a[15] = 1;
    b[15] = 2;
    store.exchange(make_request(DeadDropId(a), vec![1]));
    assert!(matches!(store.exchange(make_request(DeadDropId(b), vec![2])), ExchangeResult::NoPartner));
    assert_eq!(store.len(), 2);
}

#[test]
fn indexed_dead_drop_layout() {
    let id = indexed_dead_drop(0x0102);
    let mut expected = [0u8; 16];
    expected[0] = 0x02;
    expected[1] = 0x01;
    assert_eq!(id.0, expected);
}

#[test]
fn random_index_is_below_the_bound() {
    for _ in 0..100 {
        let i = vuvuzela::dead_drop::random_index(7).unwrap();
        assert!(i < 7);
    }
}
